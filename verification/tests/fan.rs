use colorctl::fan::{
    bank_select_value, fan_curve_writes, fan_rpm_from_raw, fan_speed_writes, open_start,
    open_step, temperature_from_raw, FanHeader, HwmWrite, OpenError, OpenStage, OpenStep,
    PortAccess, ScriptOutcome, SioPorts, NCT5584D_CHIP_ID,
};

fn w(port: u16, value: u8) -> PortAccess {
    PortAccess::Write { port, value }
}

fn r(port: u16) -> PortAccess {
    PortAccess::Read { port }
}

#[test]
fn header_tables() {
    let all = FanHeader::all();
    assert_eq!(
        all,
        &[FanHeader::Cpu, FanHeader::ChaFan1, FanHeader::ChaFan2, FanHeader::ChaFan3, FanHeader::Pump]
    );
    let names: Vec<&str> = all.iter().map(|h| h.name()).collect();
    assert_eq!(names, ["CPU_FAN", "CHA_FAN1", "CHA_FAN2", "CHA_FAN3", "AIO_PUMP"]);
    let banks: Vec<u8> = all.iter().map(|h| h.bank()).collect();
    assert_eq!(banks, [2, 1, 10, 3, 11]);
    let regs: Vec<u8> = all.iter().map(|h| h.rpm_reg()).collect();
    assert_eq!(regs, [0xC2, 0xC0, 0xCA, 0xC4, 0xCE]);
}

#[test]
fn speed_and_curve_writes() {
    assert_eq!(
        fan_speed_writes(FanHeader::ChaFan2, 180),
        vec![
            HwmWrite { bank: 10, reg: 0x02, value: 0x00 },
            HwmWrite { bank: 10, reg: 0x09, value: 180 },
        ]
    );
    let writes = fan_curve_writes(FanHeader::Pump, &[(0, 204), (70, 204), (75, 255), (100, 255)]);
    let expected: Vec<HwmWrite> = [
        (0x66, 0xAA),
        (0x03, 0x01),
        (0x04, 0x01),
        (0x02, 0x40),
        (0x21, 0),
        (0x22, 70),
        (0x23, 75),
        (0x24, 100),
        (0x27, 204),
        (0x28, 204),
        (0x29, 255),
        (0x2A, 255),
    ]
    .iter()
    .map(|(reg, value)| HwmWrite { bank: 11, reg: *reg, value: *value })
    .collect();
    assert_eq!(writes, expected);
}

#[test]
fn raw_readings() {
    assert_eq!(fan_rpm_from_raw(0x05, 0xDC), 1500);
    assert_eq!(fan_rpm_from_raw(0xC3, 0x4F), 49999);
    assert_eq!(fan_rpm_from_raw(0xC3, 0x50), 0);
    assert_eq!(fan_rpm_from_raw(0xFF, 0xFF), 0);
    assert_eq!(temperature_from_raw(45), 45);
    assert_eq!(temperature_from_raw(149), 149);
    assert_eq!(temperature_from_raw(150), 0);
    assert_eq!(bank_select_value(0xA7, 0x0B), 0xAB);
    assert_eq!(bank_select_value(0x0F, 0xF4), 0x04);
}

#[test]
fn open_sequence_on_a_present_chip() {
    let step = open_start();
    let probe0 = vec![w(0x4E, 0x87), w(0x4E, 0x87), w(0x4E, 0x20), r(0x4F), w(0x4E, 0x21), r(0x4F), w(0x4E, 0xAA)];
    assert_eq!(step, OpenStep::Run(OpenStage::Probe { candidate: 0 }, probe0));
    let step = open_step(OpenStage::Probe { candidate: 0 }, &ScriptOutcome::Completed(vec![0xD4, 0x2B]));
    let unlock = OpenStage::Unlock { reg_port: 0x4E, val_port: 0x4F, chip_id: 0xD42B };
    assert_eq!(step, OpenStep::Run(unlock, vec![w(0x4E, 0x87), w(0x4E, 0x87), w(0x4E, 0x28), r(0x4F)]));
    let step = open_step(unlock, &ScriptOutcome::Completed(vec![0x13]));
    let unlocked = OpenStage::Unlocked { reg_port: 0x4E, val_port: 0x4F, chip_id: 0xD42B };
    assert_eq!(step, OpenStep::Run(unlocked, vec![w(0x4F, 0x03), w(0x4E, 0xAA)]));
    let step2 = open_step(unlock, &ScriptOutcome::Completed(vec![0x03]));
    assert_eq!(step2, OpenStep::Run(unlocked, vec![w(0x4E, 0xAA)]));
    let step = open_step(unlocked, &ScriptOutcome::Completed(vec![]));
    let base = OpenStage::Base { reg_port: 0x4E, val_port: 0x4F, chip_id: 0xD42B };
    let base_script = vec![
        w(0x4E, 0x87),
        w(0x4E, 0x87),
        w(0x4E, 0x07),
        w(0x4F, 0x0B),
        w(0x4E, 0x60),
        r(0x4F),
        w(0x4E, 0x61),
        r(0x4F),
        w(0x4E, 0xAA),
    ];
    assert_eq!(step, OpenStep::Run(base, base_script));
    let step = open_step(base, &ScriptOutcome::Completed(vec![0x0A, 0x20]));
    assert_eq!(
        step,
        OpenStep::Opened(SioPorts {
            reg_port: 0x4E,
            val_port: 0x4F,
            hwm_index_port: 0x0A25,
            hwm_data_port: 0x0A26,
            chip_id: 0xD42B,
        })
    );
}

#[test]
fn open_falls_back_and_rejects() {
    let probe1 = vec![w(0x2E, 0x87), w(0x2E, 0x87), w(0x2E, 0x20), r(0x2F), w(0x2E, 0x21), r(0x2F), w(0x2E, 0xAA)];
    assert_eq!(
        open_step(OpenStage::Probe { candidate: 0 }, &ScriptOutcome::Failed),
        OpenStep::Run(OpenStage::Probe { candidate: 1 }, probe1.clone())
    );
    assert_eq!(
        open_step(OpenStage::Probe { candidate: 0 }, &ScriptOutcome::Completed(vec![0xFF, 0xFF])),
        OpenStep::Run(OpenStage::Probe { candidate: 1 }, probe1)
    );
    assert_eq!(
        open_step(OpenStage::Probe { candidate: 1 }, &ScriptOutcome::Completed(vec![0, 0])),
        OpenStep::Rejected(OpenError::NotDetected)
    );
    assert_eq!(
        open_step(OpenStage::Probe { candidate: 1 }, &ScriptOutcome::Failed),
        OpenStep::Rejected(OpenError::NotDetected)
    );
    assert_eq!(
        open_step(OpenStage::Probe { candidate: 1 }, &ScriptOutcome::Completed(vec![0xC8, 0x03])),
        OpenStep::Rejected(OpenError::UnsupportedChip(0xC803))
    );
    let id = NCT5584D_CHIP_ID;
    let base = OpenStage::Base { reg_port: 0x2E, val_port: 0x2F, chip_id: id };
    assert_eq!(
        open_step(base, &ScriptOutcome::Completed(vec![0xFF, 0xFF])),
        OpenStep::Rejected(OpenError::BadHwmBase(0xFFFF))
    );
    assert_eq!(open_step(base, &ScriptOutcome::Failed), OpenStep::PortError);
    let unlock = OpenStage::Unlock { reg_port: 0x2E, val_port: 0x2F, chip_id: id };
    assert_eq!(open_step(unlock, &ScriptOutcome::Failed), OpenStep::PortError);
    // the port arithmetic wraps as in a release build
    assert_eq!(
        open_step(base, &ScriptOutcome::Completed(vec![0xFF, 0xFC])),
        OpenStep::Opened(SioPorts {
            reg_port: 0x2E,
            val_port: 0x2F,
            hwm_index_port: 0x0001,
            hwm_data_port: 0x0002,
            chip_id: id,
        })
    );
}
