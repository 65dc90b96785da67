use vstd::prelude::*;
use vstd::string::*;

verus! {

/// PWM duty value (0..=255) for a percentage, rounded up; percentages above
/// 100 count as 100.
pub open spec fn spec_pct(p: u8) -> u8 {
    let q: int = if p > 100 { 100 } else { p as int };
    ((q * 255 + 99) / 100) as u8
}

/// Percentage (0..=100) for a raw PWM value, rounded to the nearest.
pub open spec fn spec_pwm_to_pct(pwm: u8) -> u8 {
    ((pwm as int * 100 + 127) / 255) as u8
}

/// Converts a percentage (0-100) to a PWM value (0-255).
pub fn pct(p: u8) -> (r: u8)
    ensures
        r == spec_pct(p),
{
    let p: u8 = if p > 100 { 100 } else { p };
    ((p as u32 * 255 + 99) / 100) as u8
}

/// Converts a raw PWM value (0-255) back to an approximate percentage (0-100).
pub fn pwm_to_pct(pwm: u8) -> (r: u8)
    ensures
        r == spec_pwm_to_pct(pwm),
        r <= 100,
{
    ((pwm as u16 * 100 + 127) / 255) as u8
}


/// A percentage turned into a duty and back is the percentage (capped at
/// 100); duties never exceed 255; 0% and 100% are 0 and 255; and a larger
/// percentage never gives a smaller duty.
pub proof fn lemma_pct_laws(p: u8, q: u8)
    ensures
        spec_pwm_to_pct(spec_pct(p)) == if p > 100 {
            100
        } else {
            p
        },
        spec_pct(0) == 0,
        spec_pct(100) == 255,
        p <= q ==> spec_pct(p) <= spec_pct(q),
{
    let a: u8 = if p > 100 { 100 } else { p };
    let b: u8 = if q > 100 { 100 } else { q };
    assert(a <= 100 ==> (((((a as u32) * 255 + 99) / 100) * 100 + 127) / 255) == a as u32)
        by (bit_vector);
    assert(a <= b && b <= 100 ==> ((a as u32) * 255 + 99) / 100 <= ((b as u32) * 255 + 99) / 100)
        by (bit_vector);
    assert(a <= 100 ==> ((a as u32) * 255 + 99) / 100 <= 255) by (bit_vector);
}

/// File name of the RGB state.
pub const RGB_STATE_FILE_NAME: &'static str = "rgb.state";

/// A question about the system asked while deciding where a state file
/// lives, in the order they are asked.
#[derive(Clone, Copy, Debug, PartialEq, Eq, Structural)]
pub enum StateProbe {
    /// Is `COLORCTL_STATE_FILE` set?
    EnvStateFile,
    /// Is `COLORCTL_STATE_DIR` set?
    EnvStateDir,
    /// Is the system state file an existing file that opens for writing?
    SystemFileWritable,
    /// Running as root, could the system state directory be created (it is
    /// then made 0755)?
    RootCreatedSystemDir,
    /// Is the system state directory a directory in which the state file
    /// opens for writing, created if missing (it is then made 0666)?
    SystemFileCreated,
    /// Is `XDG_STATE_HOME` set?
    EnvXdgStateHome,
    /// Is `HOME` set?
    EnvHome,
}

/// Where a state file lives.
#[derive(Clone, Copy, Debug, PartialEq, Eq, Structural)]
pub enum StateLocation {
    /// At `$COLORCTL_STATE_FILE`.
    EnvFile,
    /// In `$COLORCTL_STATE_DIR`.
    EnvDir,
    /// In the system state directory `/var/lib/colorctl`.
    SystemFile,
    /// In `$XDG_STATE_HOME/colorctl`.
    XdgStateHome,
    /// In `$HOME/.local/state/colorctl`.
    Home,
    /// In `/tmp/colorctl`.
    Tmp,
}

/// The next thing to do while deciding where a state file lives.
#[derive(Clone, Copy, Debug, PartialEq, Eq, Structural)]
pub enum StatePathStep {
    /// Ask the system this question, then call `state_path_next` with the answer.
    Ask(StateProbe),
    /// The state file lives here.
    Use(StateLocation),
}

/// Position of a question in the order they are asked.
pub open spec fn probe_index(p: StateProbe) -> nat {
    match p {
        StateProbe::EnvStateFile => 0,
        StateProbe::EnvStateDir => 1,
        StateProbe::SystemFileWritable => 2,
        StateProbe::RootCreatedSystemDir => 3,
        StateProbe::SystemFileCreated => 4,
        StateProbe::EnvXdgStateHome => 5,
        StateProbe::EnvHome => 6,
    }
}

/// The questions in the order they are asked.
pub open spec fn probe_order() -> Seq<StateProbe> {
    seq![
        StateProbe::EnvStateFile,
        StateProbe::EnvStateDir,
        StateProbe::SystemFileWritable,
        StateProbe::RootCreatedSystemDir,
        StateProbe::SystemFileCreated,
        StateProbe::EnvXdgStateHome,
        StateProbe::EnvHome,
    ]
}

/// Where the state file lives when the answer to a question is yes.
pub open spec fn location_of(p: StateProbe) -> StateLocation {
    match p {
        StateProbe::EnvStateFile => StateLocation::EnvFile,
        StateProbe::EnvStateDir => StateLocation::EnvDir,
        StateProbe::SystemFileWritable => StateLocation::SystemFile,
        StateProbe::RootCreatedSystemDir => StateLocation::SystemFile,
        StateProbe::SystemFileCreated => StateLocation::SystemFile,
        StateProbe::EnvXdgStateHome => StateLocation::XdgStateHome,
        StateProbe::EnvHome => StateLocation::Home,
    }
}

/// The step after a question: its location on yes, else the next question,
/// and `/tmp/colorctl` when the last is answered no.
pub open spec fn spec_state_path_next(p: StateProbe, yes: bool) -> StatePathStep {
    if yes {
        StatePathStep::Use(location_of(p))
    } else if probe_index(p) + 1 < 7 {
        StatePathStep::Ask(probe_order()[probe_index(p) as int + 1])
    } else {
        StatePathStep::Use(StateLocation::Tmp)
    }
}

/// The first step of deciding where a state file lives.
pub fn state_path_first() -> (r: StatePathStep)
    ensures
        r == StatePathStep::Ask(StateProbe::EnvStateFile),
{
    StatePathStep::Ask(StateProbe::EnvStateFile)
}

/// The step after the system answered `yes` or no to `probe`.
pub fn state_path_next(probe: StateProbe, yes: bool) -> (r: StatePathStep)
    ensures
        r == spec_state_path_next(probe, yes),
{
    if yes {
        return StatePathStep::Use(
            match probe {
                StateProbe::EnvStateFile => StateLocation::EnvFile,
                StateProbe::EnvStateDir => StateLocation::EnvDir,
                StateProbe::SystemFileWritable => StateLocation::SystemFile,
                StateProbe::RootCreatedSystemDir => StateLocation::SystemFile,
                StateProbe::SystemFileCreated => StateLocation::SystemFile,
                StateProbe::EnvXdgStateHome => StateLocation::XdgStateHome,
                StateProbe::EnvHome => StateLocation::Home,
            },
        );
    }
    match probe {
        StateProbe::EnvStateFile => StatePathStep::Ask(StateProbe::EnvStateDir),
        StateProbe::EnvStateDir => StatePathStep::Ask(StateProbe::SystemFileWritable),
        StateProbe::SystemFileWritable => StatePathStep::Ask(StateProbe::RootCreatedSystemDir),
        StateProbe::RootCreatedSystemDir => StatePathStep::Ask(StateProbe::SystemFileCreated),
        StateProbe::SystemFileCreated => StatePathStep::Ask(StateProbe::EnvXdgStateHome),
        StateProbe::EnvXdgStateHome => StatePathStep::Ask(StateProbe::EnvHome),
        StateProbe::EnvHome => StatePathStep::Use(StateLocation::Tmp),
    }
}

/// Where the state file lives when the questions from `p` on are answered
/// by `answers` (one per question, in order).
pub open spec fn run_state_path(p: StateProbe, answers: Seq<bool>) -> StateLocation
    decreases 7 - probe_index(p),
{
    match spec_state_path_next(p, answers[probe_index(p) as int]) {
        StatePathStep::Use(l) => l,
        StatePathStep::Ask(q) => if probe_index(q) > probe_index(p) {
            run_state_path(q, answers)
        } else {
            StateLocation::Tmp
        },
    }
}

/// The location that the first yes among `answers` (from question `i` on)
/// gives, or `/tmp/colorctl` if there is none.
pub open spec fn first_yes_location(answers: Seq<bool>, i: nat) -> StateLocation
    decreases 7 - i,
{
    if i >= 7 {
        StateLocation::Tmp
    } else if answers[i as int] {
        location_of(probe_order()[i as int])
    } else {
        first_yes_location(answers, i + 1)
    }
}

/// Deciding where a state file lives picks the location of the first
/// question answered yes, in the fixed order of the questions, and
/// `/tmp/colorctl` when all are answered no.
pub proof fn lemma_first_yes_wins(answers: Seq<bool>)
    requires
        answers.len() == 7,
    ensures
        run_state_path(StateProbe::EnvStateFile, answers) == first_yes_location(answers, 0),
{
    lemma_run_from(StateProbe::EnvStateFile, answers);
}

/// `run_state_path` from any question agrees with `first_yes_location`.
proof fn lemma_run_from(p: StateProbe, answers: Seq<bool>)
    requires
        answers.len() == 7,
    ensures
        run_state_path(p, answers) == first_yes_location(answers, probe_index(p)),
    decreases 7 - probe_index(p),
{
    let i = probe_index(p);
    assert(probe_order()[i as int] == p);
    if answers[i as int] {
        assert(run_state_path(p, answers) == location_of(p));
    } else if i + 1 < 7 {
        let q = probe_order()[i as int + 1];
        assert(probe_index(q) == i + 1);
        assert(spec_state_path_next(p, false) == StatePathStep::Ask(q));
        lemma_run_from(q, answers);
        assert(first_yes_location(answers, i) == first_yes_location(answers, i + 1));
    } else {
        assert(spec_state_path_next(p, false) == StatePathStep::Use(StateLocation::Tmp));
        assert(first_yes_location(answers, i + 1) == StateLocation::Tmp);
    }
}

/// The system directory of state files.
pub const SYSTEM_STATE_DIR: &'static str = "/var/lib/colorctl";

/// `part` joined onto the path `base` (what `Path::join` gives on Unix): an
/// absolute `part` replaces `base`; otherwise a `/` goes between them unless
/// `base` is empty or already ends with one.
pub open spec fn join_path(base: Seq<char>, part: Seq<char>) -> Seq<char> {
    if part.len() > 0 && part[0] == '/' {
        part
    } else if base.len() == 0 || base.last() == '/' {
        base + part
    } else {
        base + seq!['/'] + part
    }
}

/// The path of state file `name` at a location, where `value` is the
/// environment variable that the location reads (`COLORCTL_STATE_FILE`,
/// `COLORCTL_STATE_DIR`, `XDG_STATE_HOME` or `HOME`; unused for the others).
pub open spec fn spec_state_file_path(location: StateLocation, value: Seq<char>, name: Seq<char>) -> Seq<
    char,
> {
    match location {
        StateLocation::EnvFile => value,
        StateLocation::EnvDir => join_path(value, name),
        StateLocation::SystemFile => join_path("/var/lib/colorctl"@, name),
        StateLocation::XdgStateHome => join_path(join_path(value, "colorctl"@), name),
        StateLocation::Home => join_path(join_path(value, ".local/state/colorctl"@), name),
        StateLocation::Tmp => join_path("/tmp/colorctl"@, name),
    }
}

/// Joins `part` onto the path `base`.
fn join_path_text(base: &str, part: &str) -> (r: String)
    ensures
        r@ == join_path(base@, part@),
{
    let pl = part.unicode_len();
    if pl > 0 && part.get_char(0) == '/' {
        return String::from_str(part);
    }
    let bl = base.unicode_len();
    let mut r = String::from_str(base);
    if bl > 0 && base.get_char(bl - 1) != '/' {
        proof {
            reveal_strlit("/");
        }
        r.append("/");
    }
    r.append(part);
    r
}

/// The path of state file `name` at `location`; `value` is the environment
/// variable that the location reads.
pub fn state_file_path(location: StateLocation, value: &str, name: &str) -> (r: String)
    ensures
        r@ == spec_state_file_path(location, value@, name@),
{
    match location {
        StateLocation::EnvFile => String::from_str(value),
        StateLocation::EnvDir => join_path_text(value, name),
        StateLocation::SystemFile => join_path_text(SYSTEM_STATE_DIR, name),
        StateLocation::XdgStateHome => {
            let dir = join_path_text(value, "colorctl");
            join_path_text(dir.as_str(), name)
        },
        StateLocation::Home => {
            let dir = join_path_text(value, ".local/state/colorctl");
            join_path_text(dir.as_str(), name)
        },
        StateLocation::Tmp => join_path_text("/tmp/colorctl", name),
    }
}

/// A yes to a question settles where the state file lives: at
/// `$COLORCTL_STATE_FILE`, in `$COLORCTL_STATE_DIR`, in the system directory
/// for any of the three system-file questions, in `$XDG_STATE_HOME`, or in
/// `$HOME`; a yes never falls back to `/tmp`, which only a no to the last
/// question (`HOME` unset) gives.
pub proof fn lemma_yes_settles_location(p: StateProbe)
    ensures
        spec_state_path_next(StateProbe::EnvStateFile, true) == StatePathStep::Use(
            StateLocation::EnvFile,
        ),
        spec_state_path_next(StateProbe::EnvStateDir, true) == StatePathStep::Use(
            StateLocation::EnvDir,
        ),
        spec_state_path_next(StateProbe::SystemFileWritable, true) == StatePathStep::Use(
            StateLocation::SystemFile,
        ),
        spec_state_path_next(StateProbe::RootCreatedSystemDir, true) == StatePathStep::Use(
            StateLocation::SystemFile,
        ),
        spec_state_path_next(StateProbe::SystemFileCreated, true) == StatePathStep::Use(
            StateLocation::SystemFile,
        ),
        spec_state_path_next(StateProbe::EnvXdgStateHome, true) == StatePathStep::Use(
            StateLocation::XdgStateHome,
        ),
        spec_state_path_next(StateProbe::EnvHome, true) == StatePathStep::Use(StateLocation::Home),
        spec_state_path_next(p, true) != StatePathStep::Use(StateLocation::Tmp),
        spec_state_path_next(p, false) == StatePathStep::Use(StateLocation::Tmp) <==> p
            == StateProbe::EnvHome,
        spec_state_path_next(p, false) matches StatePathStep::Ask(q) ==> probe_index(q)
            == probe_index(p) + 1,
{
}

/// The system state file is `/var/lib/colorctl/<name>` and the last resort
/// is `/tmp/colorctl/<name>`, for a relative file name.
pub proof fn lemma_fixed_state_paths(value: Seq<char>, name: Seq<char>)
    requires
        name.len() > 0,
        name[0] != '/',
    ensures
        spec_state_file_path(StateLocation::SystemFile, value, name) == seq![
            '/',
            'v',
            'a',
            'r',
            '/',
            'l',
            'i',
            'b',
            '/',
            'c',
            'o',
            'l',
            'o',
            'r',
            'c',
            't',
            'l',
            '/',
        ] + name,
        spec_state_file_path(StateLocation::Tmp, value, name) == seq![
            '/',
            't',
            'm',
            'p',
            '/',
            'c',
            'o',
            'l',
            'o',
            'r',
            'c',
            't',
            'l',
            '/',
        ] + name,
{
    reveal_strlit("/var/lib/colorctl");
    reveal_strlit("/tmp/colorctl");
    assert("/var/lib/colorctl"@ + seq!['/'] =~= seq![
        '/',
        'v',
        'a',
        'r',
        '/',
        'l',
        'i',
        'b',
        '/',
        'c',
        'o',
        'l',
        'o',
        'r',
        'c',
        't',
        'l',
        '/',
    ]);
    assert("/tmp/colorctl"@ + seq!['/'] =~= seq![
        '/',
        't',
        'm',
        'p',
        '/',
        'c',
        'o',
        'l',
        'o',
        'r',
        'c',
        't',
        'l',
        '/',
    ]);
}
} // verus!
