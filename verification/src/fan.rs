//! Fan headers and the Nuvoton NCT5584D Super I/O protocol: how the chip is
//! detected and opened, and which hardware monitor registers are read and
//! written for fan speeds, SmartFan curves, RPMs and the temperature.
use vstd::prelude::*;

verus! {

/// Nuvoton NCT5584D chip ID (the upper 12 bits identify the family; the
/// lower nibble is a stepping that may vary).
pub const NCT5584D_CHIP_ID: u16 = 0xD42A;

/// A fan header of the board.
#[derive(Debug, Clone, Copy, PartialEq, Eq, Structural)]
pub enum FanHeader {
    /// CPU_FAN (bank 2).
    Cpu,
    /// CHA_FAN1 (bank 1).
    ChaFan1,
    /// CHA_FAN2 (bank 10).
    ChaFan2,
    /// CHA_FAN3 (bank 3).
    ChaFan3,
    /// AIO_PUMP (bank 11).
    Pump,
}

/// Silkscreen name of a header.
pub open spec fn header_name(h: FanHeader) -> Seq<char> {
    match h {
        FanHeader::Cpu => "CPU_FAN"@,
        FanHeader::ChaFan1 => "CHA_FAN1"@,
        FanHeader::ChaFan2 => "CHA_FAN2"@,
        FanHeader::ChaFan3 => "CHA_FAN3"@,
        FanHeader::Pump => "AIO_PUMP"@,
    }
}

/// Hardware monitor bank that controls a header.
pub open spec fn header_bank(h: FanHeader) -> u8 {
    match h {
        FanHeader::Cpu => 2,
        FanHeader::ChaFan1 => 1,
        FanHeader::ChaFan2 => 10,
        FanHeader::ChaFan3 => 3,
        FanHeader::Pump => 11,
    }
}

/// Register (in bank 4) of the high byte of a header's RPM; the low byte
/// follows it.
pub open spec fn header_rpm_reg(h: FanHeader) -> u8 {
    match h {
        FanHeader::ChaFan1 => 192,
        FanHeader::Cpu => 194,
        FanHeader::ChaFan3 => 196,
        FanHeader::ChaFan2 => 202,
        FanHeader::Pump => 206,
    }
}

/// The headers in their fixed order.
pub open spec fn all_headers() -> Seq<FanHeader> {
    seq![FanHeader::Cpu, FanHeader::ChaFan1, FanHeader::ChaFan2, FanHeader::ChaFan3, FanHeader::Pump]
}

impl FanHeader {
    /// Silkscreen name of the header.
    pub fn name(&self) -> (r: &'static str)
        ensures
            r@ == header_name(*self),
    {
        match self {
            FanHeader::Cpu => "CPU_FAN",
            FanHeader::ChaFan1 => "CHA_FAN1",
            FanHeader::ChaFan2 => "CHA_FAN2",
            FanHeader::ChaFan3 => "CHA_FAN3",
            FanHeader::Pump => "AIO_PUMP",
        }
    }

    /// Hardware monitor bank that controls the header.
    pub fn bank(&self) -> (r: u8)
        ensures
            r == header_bank(*self),
    {
        match self {
            FanHeader::Cpu => 2,
            FanHeader::ChaFan1 => 1,
            FanHeader::ChaFan2 => 10,
            FanHeader::ChaFan3 => 3,
            FanHeader::Pump => 11,
        }
    }

    /// Register of the high byte of the header's RPM.
    pub fn rpm_reg(&self) -> (r: u8)
        ensures
            r == header_rpm_reg(*self),
    {
        match self {
            FanHeader::ChaFan1 => 192,
            FanHeader::Cpu => 194,
            FanHeader::ChaFan3 => 196,
            FanHeader::ChaFan2 => 202,
            FanHeader::Pump => 206,
        }
    }

    /// All headers, in their fixed order.
    pub fn all() -> (r: &'static [FanHeader])
        ensures
            r@ == all_headers(),
    {
        &[FanHeader::Cpu, FanHeader::ChaFan1, FanHeader::ChaFan2, FanHeader::ChaFan3, FanHeader::Pump]
    }
}

/// Each header appears once in `all_headers`, and no two headers share a
/// bank or an RPM register pair.
pub proof fn lemma_headers_distinct()
    ensures
        forall|h: FanHeader| #[trigger] all_headers().contains(h),
        forall|i: int, j: int|
            0 <= i < j < 5 ==> all_headers()[i] != all_headers()[j],
        forall|a: FanHeader, b: FanHeader|
            a != b ==> #[trigger] header_bank(a) != #[trigger] header_bank(b),
        forall|a: FanHeader, b: FanHeader|
            a != b ==> #[trigger] header_rpm_reg(a) + 1 < #[trigger] header_rpm_reg(b)
                || header_rpm_reg(b) + 1 < header_rpm_reg(a),
{
    assert forall|h: FanHeader| #[trigger] all_headers().contains(h) by {
        match h {
            FanHeader::Cpu => assert(all_headers()[0] == h),
            FanHeader::ChaFan1 => assert(all_headers()[1] == h),
            FanHeader::ChaFan2 => assert(all_headers()[2] == h),
            FanHeader::ChaFan3 => assert(all_headers()[3] == h),
            FanHeader::Pump => assert(all_headers()[4] == h),
        }
    }
}

/// One access to an I/O port.
#[derive(Debug, Clone, Copy, PartialEq, Eq, Structural)]
pub enum PortAccess {
    /// Write `value` to `port`.
    Write { port: u16, value: u8 },
    /// Read a byte from `port`.
    Read { port: u16 },
}

/// The (index, data) port pairs probed for the chip, in order.
pub open spec fn candidate_ports(c: int) -> (u16, u16) {
    if c == 0 {
        (0x4Eu16, 0x4Fu16)
    } else {
        (0x2Eu16, 0x2Fu16)
    }
}

/// Number of port pairs probed.
pub const PORT_CANDIDATES: usize = 2;

/// A 16-bit value from its high and low bytes.
pub open spec fn word(hi: u8, lo: u8) -> u16 {
    (hi as int * 256 + lo as int) as u16
}

/// Whether a chip id is of the NCT5584D family (equal upper 12 bits).
pub open spec fn supported_chip(id: u16) -> bool {
    id as int / 16 == NCT5584D_CHIP_ID as int / 16
}

/// The ports of an opened Super I/O chip.
#[derive(Debug, Clone, Copy, PartialEq, Eq, Structural)]
pub struct SioPorts {
    pub reg_port: u16,
    pub val_port: u16,
    pub hwm_index_port: u16,
    pub hwm_data_port: u16,
    pub chip_id: u16,
}

/// Where the opening of the chip stands: the script of each stage has run
/// and its reads are handed to `open_step`.
#[derive(Debug, Clone, Copy, PartialEq, Eq, Structural)]
pub enum OpenStage {
    /// Reading the chip id at port pair `candidate`.
    Probe { candidate: usize },
    /// Reading the I/O space lock register.
    Unlock { reg_port: u16, val_port: u16, chip_id: u16 },
    /// Clearing the lock bit (if set) and leaving configuration mode.
    Unlocked { reg_port: u16, val_port: u16, chip_id: u16 },
    /// Reading the hardware monitor base address.
    Base { reg_port: u16, val_port: u16, chip_id: u16 },
}

/// Why the chip could not be opened.
#[derive(Debug, Clone, Copy, PartialEq, Eq, Structural)]
pub enum OpenError {
    /// No candidate port pair answered with a chip id.
    NotDetected,
    /// The chip answering is not of the NCT5584D family.
    UnsupportedChip(u16),
    /// The hardware monitor base address read back as 0 or 0xFFFF.
    BadHwmBase(u16),
}

/// What the driver of the opening does next.
#[derive(Debug, Clone, PartialEq, Eq)]
pub enum OpenStep {
    /// Run the script, stopping at the first port error, and hand the bytes
    /// read (or the failure) to `open_step` with the stage.
    Run(OpenStage, Vec<PortAccess>),
    /// The chip is open.
    Opened(SioPorts),
    /// The chip cannot be used.
    Rejected(OpenError),
    /// Report the port error that stopped the last script.
    PortError,
}

/// How a script ended.
#[derive(Debug, Clone, PartialEq, Eq)]
pub enum ScriptOutcome {
    /// Every access succeeded; the bytes read, in order.
    Completed(Vec<u8>),
    /// An access failed.
    Failed,
}

/// `OpenStep` with its script as a sequence.
pub enum OpenStepView {
    Run(OpenStage, Seq<PortAccess>),
    Opened(SioPorts),
    Rejected(OpenError),
    PortError,
}

impl View for OpenStep {
    type V = OpenStepView;

    open spec fn view(&self) -> OpenStepView {
        match self {
            OpenStep::Run(st, s) => OpenStepView::Run(*st, s@),
            OpenStep::Opened(p) => OpenStepView::Opened(*p),
            OpenStep::Rejected(e) => OpenStepView::Rejected(*e),
            OpenStep::PortError => OpenStepView::PortError,
        }
    }
}

/// A write of `value` to `port`.
pub open spec fn w(port: u16, value: u8) -> PortAccess {
    PortAccess::Write { port, value }
}

/// Reads the chip id: enter configuration mode, read registers 0x20 and
/// 0x21, leave configuration mode.
pub open spec fn probe_script(reg: u16, val: u16) -> Seq<PortAccess> {
    seq![
        w(reg, 0x87),
        w(reg, 0x87),
        w(reg, 0x20),
        PortAccess::Read { port: val },
        w(reg, 0x21),
        PortAccess::Read { port: val },
        w(reg, 0xAA),
    ]
}

/// Reads the I/O space lock register 0x28 in configuration mode.
pub open spec fn unlock_script(reg: u16, val: u16) -> Seq<PortAccess> {
    seq![w(reg, 0x87), w(reg, 0x87), w(reg, 0x28), PortAccess::Read { port: val }]
}

/// Clears bit 4 of the lock register if it is set, then leaves
/// configuration mode.
pub open spec fn unlocked_script(reg: u16, val: u16, lock: u8) -> Seq<PortAccess> {
    if lock & 0x10 != 0 {
        seq![w(val, lock & 0xEF), w(reg, 0xAA)]
    } else {
        seq![w(reg, 0xAA)]
    }
}

/// Selects logical device 0x0B (hardware monitor) and reads its base
/// address from registers 0x60 and 0x61.
pub open spec fn base_script(reg: u16, val: u16) -> Seq<PortAccess> {
    seq![
        w(reg, 0x87),
        w(reg, 0x87),
        w(reg, 0x07),
        w(val, 0x0B),
        w(reg, 0x60),
        PortAccess::Read { port: val },
        w(reg, 0x61),
        PortAccess::Read { port: val },
        w(reg, 0xAA),
    ]
}

/// The number of bytes that the script of a stage reads.
pub open spec fn stage_reads(st: OpenStage) -> nat {
    match st {
        OpenStage::Probe { .. } => 2,
        OpenStage::Unlock { .. } => 1,
        OpenStage::Unlocked { .. } => 0,
        OpenStage::Base { .. } => 2,
    }
}

/// A stage that the opening can reach: a probe of a real candidate, or a
/// later stage at a candidate port pair with a supported chip id.
pub open spec fn stage_ok(st: OpenStage) -> bool {
    match st {
        OpenStage::Probe { candidate } => candidate < PORT_CANDIDATES,
        OpenStage::Unlock { reg_port, val_port, chip_id }
        | OpenStage::Unlocked { reg_port, val_port, chip_id }
        | OpenStage::Base { reg_port, val_port, chip_id } => {
            &&& (exists|c: int| 0 <= c < 2 && #[trigger] candidate_ports(c) == (reg_port, val_port))
            &&& supported_chip(chip_id)
        },
    }
}

/// How many scripts at most remain after a stage's script.
pub open spec fn stage_rank(st: OpenStage) -> nat {
    match st {
        OpenStage::Probe { candidate } => (5 - candidate) as nat,
        OpenStage::Unlock { .. } => 3,
        OpenStage::Unlocked { .. } => 2,
        OpenStage::Base { .. } => 1,
    }
}

/// The step after probing candidate `c` found no chip there.
pub open spec fn after_failed_probe(c: int) -> OpenStepView {
    if c + 1 < 2 {
        OpenStepView::Run(
            OpenStage::Probe { candidate: (c + 1) as usize },
            probe_script(candidate_ports(c + 1).0, candidate_ports(c + 1).1),
        )
    } else {
        OpenStepView::Rejected(OpenError::NotDetected)
    }
}

/// The step that follows a stage whose script ended with `outcome` (the
/// bytes read, or none if a port access failed).
pub open spec fn spec_open_step(st: OpenStage, outcome: Option<Seq<u8>>) -> OpenStepView {
    match st {
        OpenStage::Probe { candidate } => match outcome {
            None => after_failed_probe(candidate as int),
            Some(r) => {
                let id = word(r[0], r[1]);
                if id == 0 || id == 0xFFFF {
                    after_failed_probe(candidate as int)
                } else if !supported_chip(id) {
                    OpenStepView::Rejected(OpenError::UnsupportedChip(id))
                } else {
                    let (reg, val) = candidate_ports(candidate as int);
                    OpenStepView::Run(
                        OpenStage::Unlock { reg_port: reg, val_port: val, chip_id: id },
                        unlock_script(reg, val),
                    )
                }
            },
        },
        OpenStage::Unlock { reg_port, val_port, chip_id } => match outcome {
            None => OpenStepView::PortError,
            Some(r) => OpenStepView::Run(
                OpenStage::Unlocked { reg_port, val_port, chip_id },
                unlocked_script(reg_port, val_port, r[0]),
            ),
        },
        OpenStage::Unlocked { reg_port, val_port, chip_id } => match outcome {
            None => OpenStepView::PortError,
            Some(r) => OpenStepView::Run(
                OpenStage::Base { reg_port, val_port, chip_id },
                base_script(reg_port, val_port),
            ),
        },
        OpenStage::Base { reg_port, val_port, chip_id } => match outcome {
            None => OpenStepView::PortError,
            Some(r) => {
                let base = word(r[0], r[1]);
                if base == 0 || base == 0xFFFF {
                    OpenStepView::Rejected(OpenError::BadHwmBase(base))
                } else {
                    OpenStepView::Opened(
                        SioPorts {
                            reg_port,
                            val_port,
                            hwm_index_port: ((base + 5) % 0x10000) as u16,
                            hwm_data_port: ((base + 6) % 0x10000) as u16,
                            chip_id,
                        },
                    )
                }
            },
        },
    }
}

/// The bytes a script outcome carries.
pub open spec fn outcome_view(o: ScriptOutcome) -> Option<Seq<u8>> {
    match o {
        ScriptOutcome::Completed(r) => Some(r@),
        ScriptOutcome::Failed => None,
    }
}

/// A 16-bit value from its high and low bytes.
pub fn word_of(hi: u8, lo: u8) -> (r: u16)
    ensures
        r == word(hi, lo),
{
    assert(((hi as u16) << 8u16) | (lo as u16) == hi as u16 * 256 + lo as u16) by (bit_vector);
    ((hi as u16) << 8) | (lo as u16)
}

/// Whether a chip id is of the NCT5584D family.
pub fn is_supported_chip(id: u16) -> (b: bool)
    ensures
        b == supported_chip(id),
{
    assert(id >> 4u16 == id / 16) by (bit_vector);
    assert(NCT5584D_CHIP_ID >> 4u16 == NCT5584D_CHIP_ID / 16) by (bit_vector);
    (id >> 4) == (NCT5584D_CHIP_ID >> 4)
}

/// The chip id probe at candidate `c`.
fn probe(c: usize) -> (r: OpenStep)
    requires
        c < PORT_CANDIDATES,
    ensures
        r@ == OpenStepView::Run(
            OpenStage::Probe { candidate: c },
            probe_script(candidate_ports(c as int).0, candidate_ports(c as int).1),
        ),
{
    let (reg, val): (u16, u16) = if c == 0 {
        (0x4E, 0x4F)
    } else {
        (0x2E, 0x2F)
    };
    let script = vec![
        PortAccess::Write { port: reg, value: 0x87 },
        PortAccess::Write { port: reg, value: 0x87 },
        PortAccess::Write { port: reg, value: 0x20 },
        PortAccess::Read { port: val },
        PortAccess::Write { port: reg, value: 0x21 },
        PortAccess::Read { port: val },
        PortAccess::Write { port: reg, value: 0xAA },
    ];
    assert(script@ =~= probe_script(reg, val));
    OpenStep::Run(OpenStage::Probe { candidate: c }, script)
}

/// The step after candidate `c` showed no chip.
fn next_probe(c: usize) -> (r: OpenStep)
    requires
        c < PORT_CANDIDATES,
    ensures
        r@ == after_failed_probe(c as int),
{
    if c + 1 < PORT_CANDIDATES {
        probe(c + 1)
    } else {
        OpenStep::Rejected(OpenError::NotDetected)
    }
}

/// The first step of opening the chip: probe the first port pair.
pub fn open_start() -> (r: OpenStep)
    ensures
        r@ == OpenStepView::Run(
            OpenStage::Probe { candidate: 0 },
            probe_script(0x4E, 0x4F),
        ),
        r matches OpenStep::Run(st, _) && stage_ok(st),
{
    probe(0)
}

/// The step that follows `stage` once its script has ended with `outcome`.
///
/// Every step keeps the stage reachable and brings the opening closer to
/// its end; an opened chip is of the NCT5584D family, answered at one of
/// the candidate port pairs, and has a hardware monitor base other than 0
/// and 0xFFFF.
pub fn open_step(stage: OpenStage, outcome: &ScriptOutcome) -> (r: OpenStep)
    requires
        stage_ok(stage),
        outcome matches ScriptOutcome::Completed(reads) ==> reads.len() == stage_reads(stage),
    ensures
        r@ == spec_open_step(stage, outcome_view(*outcome)),
        r matches OpenStep::Run(st, _) ==> stage_ok(st) && stage_rank(st) < stage_rank(stage),
        r matches OpenStep::Opened(p) ==> supported_chip(p.chip_id) && (exists|c: int|
            0 <= c < 2 && #[trigger] candidate_ports(c) == (p.reg_port, p.val_port)),
{
    match stage {
        OpenStage::Probe { candidate } => match outcome {
            ScriptOutcome::Failed => next_probe(candidate),
            ScriptOutcome::Completed(reads) => {
                let id = word_of(reads[0], reads[1]);
                if id == 0 || id == 0xFFFF {
                    next_probe(candidate)
                } else if !is_supported_chip(id) {
                    OpenStep::Rejected(OpenError::UnsupportedChip(id))
                } else {
                    let (reg, val): (u16, u16) = if candidate == 0 {
                        (0x4E, 0x4F)
                    } else {
                        (0x2E, 0x2F)
                    };
                    assert(candidate_ports(candidate as int) == (reg, val));
                    let script = vec![
                        PortAccess::Write { port: reg, value: 0x87 },
                        PortAccess::Write { port: reg, value: 0x87 },
                        PortAccess::Write { port: reg, value: 0x28 },
                        PortAccess::Read { port: val },
                    ];
                    assert(script@ =~= unlock_script(reg, val));
                    OpenStep::Run(OpenStage::Unlock { reg_port: reg, val_port: val, chip_id: id }, script)
                }
            },
        },
        OpenStage::Unlock { reg_port, val_port, chip_id } => match outcome {
            ScriptOutcome::Failed => OpenStep::PortError,
            ScriptOutcome::Completed(reads) => {
                let lock = reads[0];
                let script = if lock & 0x10 != 0 {
                    assert(lock & !0x10u8 == lock & 0xEF) by (bit_vector);
                    vec![
                        PortAccess::Write { port: val_port, value: lock & !0x10 },
                        PortAccess::Write { port: reg_port, value: 0xAA },
                    ]
                } else {
                    vec![PortAccess::Write { port: reg_port, value: 0xAA }]
                };
                assert(script@ =~= unlocked_script(reg_port, val_port, lock));
                OpenStep::Run(OpenStage::Unlocked { reg_port, val_port, chip_id }, script)
            },
        },
        OpenStage::Unlocked { reg_port, val_port, chip_id } => match outcome {
            ScriptOutcome::Failed => OpenStep::PortError,
            ScriptOutcome::Completed(_) => {
                let script = vec![
                    PortAccess::Write { port: reg_port, value: 0x87 },
                    PortAccess::Write { port: reg_port, value: 0x87 },
                    PortAccess::Write { port: reg_port, value: 0x07 },
                    PortAccess::Write { port: val_port, value: 0x0B },
                    PortAccess::Write { port: reg_port, value: 0x60 },
                    PortAccess::Read { port: val_port },
                    PortAccess::Write { port: reg_port, value: 0x61 },
                    PortAccess::Read { port: val_port },
                    PortAccess::Write { port: reg_port, value: 0xAA },
                ];
                assert(script@ =~= base_script(reg_port, val_port));
                OpenStep::Run(OpenStage::Base { reg_port, val_port, chip_id }, script)
            },
        },
        OpenStage::Base { reg_port, val_port, chip_id } => match outcome {
            ScriptOutcome::Failed => OpenStep::PortError,
            ScriptOutcome::Completed(reads) => {
                let base = word_of(reads[0], reads[1]);
                if base == 0 || base == 0xFFFF {
                    OpenStep::Rejected(OpenError::BadHwmBase(base))
                } else {
                    OpenStep::Opened(
                        SioPorts {
                            reg_port,
                            val_port,
                            hwm_index_port: base.wrapping_add(5),
                            hwm_data_port: base.wrapping_add(6),
                            chip_id,
                        },
                    )
                }
            },
        },
    }
}

/// Hardware monitor register that selects the bank.
pub const BANK_SELECT_REG: u8 = 0x4E;

/// Bank of the RPM registers.
pub const RPM_BANK: u8 = 4;

/// Bank and register of the board temperature.
pub const TEMP_BANK: u8 = 1;

/// Register of the board temperature in `TEMP_BANK`.
pub const TEMP_REG: u8 = 0x50;

/// The new value of the bank select register: its upper nibble kept, the
/// bank in the lower nibble.
pub fn bank_select_value(cur: u8, bank: u8) -> (r: u8)
    ensures
        r == (cur & 0xF0) | (bank & 0x0F),
        r & 0xF0 == cur & 0xF0,
        r & 0x0F == bank & 0x0F,
{
    assert(((cur & 0xF0) | (bank & 0x0F)) & 0xF0 == cur & 0xF0) by (bit_vector);
    assert(((cur & 0xF0) | (bank & 0x0F)) & 0x0F == bank & 0x0F) by (bit_vector);
    (cur & 0xF0) | (bank & 0x0F)
}

/// The RPM from its two register bytes; readings of 50000 and above mean
/// no fan and count as 0.
pub fn fan_rpm_from_raw(hi: u8, lo: u8) -> (r: u16)
    ensures
        r == if word(hi, lo) >= 50000 {
            0
        } else {
            word(hi, lo)
        },
        r < 50000,
{
    let rpm = word_of(hi, lo);
    if rpm >= 50000 {
        0
    } else {
        rpm
    }
}

/// The board temperature in °C from its register; readings of 150 and
/// above are invalid and count as 0.
pub fn temperature_from_raw(t: u8) -> (r: u8)
    ensures
        r == if t >= 150 {
            0
        } else {
            t
        },
        r < 150,
{
    if t >= 150 {
        0
    } else {
        t
    }
}

/// A write of `value` to hardware monitor register `reg` of `bank`.
#[derive(Debug, Clone, Copy, PartialEq, Eq, Structural)]
pub struct HwmWrite {
    pub bank: u8,
    pub reg: u8,
    pub value: u8,
}

/// A hardware monitor write.
pub open spec fn hw(bank: u8, reg: u8, value: u8) -> HwmWrite {
    HwmWrite { bank, reg, value }
}

/// The writes that set a header to a fixed duty: manual mode (register 2
/// set to 0), then the duty in register 9.
pub open spec fn spec_speed_writes(h: FanHeader, pwm: u8) -> Seq<HwmWrite> {
    seq![hw(header_bank(h), 0x02, 0x00), hw(header_bank(h), 0x09, pwm)]
}

/// The writes that program a 4-point SmartFan curve on a header: the
/// SmartFan set-up (0x66 = 0xAA, 0x03 = 1, 0x04 = 1, mode 0x02 = 0x40), the
/// temperatures in 0x21..0x24, then the duties in 0x27..0x2A.
pub open spec fn spec_curve_writes(h: FanHeader, points: Seq<(u8, u8)>) -> Seq<HwmWrite> {
    let b = header_bank(h);
    seq![hw(b, 0x66, 0xAA), hw(b, 0x03, 0x01), hw(b, 0x04, 0x01), hw(b, 0x02, 0x40)] + Seq::new(
        4,
        |i: int| hw(b, (0x21 + i) as u8, points[i].0),
    ) + Seq::new(4, |i: int| hw(b, (0x27 + i) as u8, points[i].1))
}

/// The register writes that set `header` to the fixed duty `pwm`.
pub fn fan_speed_writes(header: FanHeader, pwm: u8) -> (r: Vec<HwmWrite>)
    ensures
        r@ == spec_speed_writes(header, pwm),
{
    let bank = header.bank();
    let r = vec![HwmWrite { bank, reg: 0x02, value: 0x00 }, HwmWrite { bank, reg: 0x09, value: pwm }];
    assert(r@ =~= spec_speed_writes(header, pwm));
    r
}

/// The register writes that program the 4-point curve `points`
/// (temperature in °C, duty 0..255) on `header`.
pub fn fan_curve_writes(header: FanHeader, points: &[(u8, u8); 4]) -> (r: Vec<HwmWrite>)
    ensures
        r@ == spec_curve_writes(header, points@),
{
    let bank = header.bank();
    let mut r = vec![
        HwmWrite { bank, reg: 0x66, value: 0xAA },
        HwmWrite { bank, reg: 0x03, value: 0x01 },
        HwmWrite { bank, reg: 0x04, value: 0x01 },
        HwmWrite { bank, reg: 0x02, value: 0x40 },
    ];
    let ghost head = r@;
    let mut i: usize = 0;
    while i < 4
        invariant
            i <= 4,
            bank == header_bank(header),
            r@ == head + Seq::new(i as nat, |k: int| hw(bank, (0x21 + k) as u8, points@[k].0)),
        decreases 4 - i,
    {
        r.push(HwmWrite { bank, reg: 0x21 + i as u8, value: points[i].0 });
        i = i + 1;
        assert(r@ =~= head + Seq::new(i as nat, |k: int| hw(bank, (0x21 + k) as u8, points@[k].0)));
    }
    let ghost mid = r@;
    let mut i: usize = 0;
    while i < 4
        invariant
            i <= 4,
            bank == header_bank(header),
            r@ == mid + Seq::new(i as nat, |k: int| hw(bank, (0x27 + k) as u8, points@[k].1)),
        decreases 4 - i,
    {
        r.push(HwmWrite { bank, reg: 0x27 + i as u8, value: points[i].1 });
        i = i + 1;
        assert(r@ =~= mid + Seq::new(i as nat, |k: int| hw(bank, (0x27 + k) as u8, points@[k].1)));
    }
    assert(r@ =~= spec_curve_writes(header, points@));
    r
}


/// The banks of the headers: CPU_FAN 2, CHA_FAN1 1, CHA_FAN2 10, CHA_FAN3 3,
/// AIO_PUMP 11.
pub proof fn lemma_header_banks()
    ensures
        header_bank(FanHeader::Cpu) == 2,
        header_bank(FanHeader::ChaFan1) == 1,
        header_bank(FanHeader::ChaFan2) == 10,
        header_bank(FanHeader::ChaFan3) == 3,
        header_bank(FanHeader::Pump) == 11,
{
}

/// The port pair of a candidate: 0x4E/0x4F first, then 0x2E/0x2F.
pub proof fn lemma_candidate_pairs()
    ensures
        candidate_ports(0) == (0x4Eu16, 0x4Fu16),
        candidate_ports(1) == (0x2Eu16, 0x2Fu16),
{
}

/// Once the probe of a port pair reads a supported chip id, the lock
/// register is read at that same pair (0x4E/0x4F for the first candidate,
/// 0x2E/0x2F for the second), with that chip id kept.
pub proof fn lemma_probe_unlocks_answering_pair(c: usize, hi: u8, lo: u8)
    requires
        c < 2,
        hi as int * 256 + lo as int != 0,
        hi as int * 256 + lo as int != 0xFFFF,
        (hi as int * 256 + lo as int) / 16 == 0xD42,
    ensures
        ({
            let id = (hi as int * 256 + lo as int) as u16;
            let reg: u16 = if c == 0 { 0x4E } else { 0x2E };
            let val: u16 = if c == 0 { 0x4F } else { 0x2F };
            let step = spec_open_step((OpenStage::Probe { candidate: c }), Some(seq![hi, lo]));
            let stage = (OpenStage::Unlock { reg_port: reg, val_port: val, chip_id: id });
            let w0 = (PortAccess::Write { port: reg, value: 0x87 });
            let w1 = (PortAccess::Write { port: reg, value: 0x28 });
            let r0 = (PortAccess::Read { port: val });
            step == OpenStepView::Run(stage, seq![w0, w0, w1, r0])
        }),
{
    assert(word(hi, lo) == hi as int * 256 + lo as int);
    assert(seq![hi, lo][0] == hi && seq![hi, lo][1] == lo);
}

/// Reading the lock keeps the pair and the chip id, and ends the
/// configuration session at the same index port.
pub proof fn lemma_unlock_keeps_pair(reg: u16, val: u16, id: u16, r: Seq<u8>)
    requires
        r.len() >= 1,
    ensures
        ({
            let step = spec_open_step((OpenStage::Unlock { reg_port: reg, val_port: val, chip_id: id }), Some(r));
            let next = (OpenStage::Unlocked { reg_port: reg, val_port: val, chip_id: id });
            let exit = (PortAccess::Write { port: reg, value: 0xAA });
            (step matches OpenStepView::Run(st, sc) && st == next && sc.last() == exit)
        }),
{
}

/// Leaving the unlock keeps the pair and the chip id, and the base address
/// is read from the data port of that pair after selecting device 0x0B there.
pub proof fn lemma_base_read_at_pair(reg: u16, val: u16, id: u16, r: Seq<u8>)
    ensures
        ({
            let step = spec_open_step((OpenStage::Unlocked { reg_port: reg, val_port: val, chip_id: id }), Some(r));
            let next = (OpenStage::Base { reg_port: reg, val_port: val, chip_id: id });
            let ldn = (PortAccess::Write { port: val, value: 0x0B });
            let rd = (PortAccess::Read { port: val });
            (step matches OpenStepView::Run(st, sc) && st == next && sc.len() == 9 && sc[3] == ldn
                && sc[5] == rd && sc[7] == rd)
        }),
{
}

/// A valid base address opens the chip at the pair and chip id of the
/// stage, with the hardware monitor index and data ports at base + 5 and
/// base + 6.
pub proof fn lemma_opened_at_pair(reg: u16, val: u16, id: u16, r: Seq<u8>)
    requires
        r.len() >= 2,
        r[0] as int * 256 + r[1] as int != 0,
        r[0] as int * 256 + r[1] as int != 0xFFFF,
    ensures
        ({
            let base = r[0] as int * 256 + r[1] as int;
            let step = spec_open_step((OpenStage::Base { reg_port: reg, val_port: val, chip_id: id }), Some(r));
            (step matches OpenStepView::Opened(p) && p.reg_port == reg && p.val_port == val
                && p.chip_id == id && p.hwm_index_port == (base + 5) % 0x10000
                && p.hwm_data_port == (base + 6) % 0x10000)
        }),
{
    assert(word(r[0], r[1]) == r[0] as int * 256 + r[1] as int);
}

/// Programming a curve writes twelve registers, all in the header's bank:
/// 0x66 = 0xAA, 0x03 = 1, 0x04 = 1, then register 0x02 = 0x40 (SmartFan
/// mode, whatever the header), then the four temperatures to 0x21..0x24 and
/// the four duties to 0x27..0x2A, in point order. A fixed speed writes
/// register 0x02 = 0 (manual mode) and the duty to 0x09, in the same bank.
pub proof fn lemma_curve_writes_select_smartfan(h: FanHeader, pts: Seq<(u8, u8)>, pwm: u8, i: int)
    requires
        pts.len() == 4,
        0 <= i < 4,
    ensures
        spec_curve_writes(h, pts).len() == 12,
        forall|k: int| 0 <= k < 12 ==> (#[trigger] spec_curve_writes(h, pts)[k]).bank == header_bank(h),
        ({
            let w = spec_curve_writes(h, pts);
            let b = header_bank(h);
            &&& w[0].bank == b && w[0].reg == 0x66 && w[0].value == 0xAA
            &&& w[1].bank == b && w[1].reg == 0x03 && w[1].value == 0x01
            &&& w[2].bank == b && w[2].reg == 0x04 && w[2].value == 0x01
            &&& w[3].bank == b && w[3].reg == 0x02 && w[3].value == 0x40
            &&& w[4 + i].bank == b && w[4 + i].reg == 0x21 + i && w[4 + i].value == pts[i].0
            &&& w[8 + i].bank == b && w[8 + i].reg == 0x27 + i && w[8 + i].value == pts[i].1
        }),
        ({
            let s = spec_speed_writes(h, pwm);
            let b = header_bank(h);
            &&& s.len() == 2
            &&& s[0].bank == b && s[0].reg == 0x02 && s[0].value == 0x00
            &&& s[1].bank == b && s[1].reg == 0x09 && s[1].value == pwm
        }),
{
    let w = spec_curve_writes(h, pts);
    assert forall|k: int| 0 <= k < 12 implies (#[trigger] w[k]).bank == header_bank(h) by {
        if k >= 8 {
            assert(w[k] == hw(header_bank(h), (0x27 + (k - 8)) as u8, pts[k - 8].1));
        } else if k >= 4 {
            assert(w[k] == hw(header_bank(h), (0x21 + (k - 4)) as u8, pts[k - 4].0));
        }
    }
}
} // verus!
