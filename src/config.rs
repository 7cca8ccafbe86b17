use vstd::prelude::*;

use crate::controller::names_of;

verus! {

#[verifier::external_type_specification]
#[verifier::external_body]
pub struct ExSchedule(cron::Schedule);

/// A mode: its name and the text of the command that the lamp shows while it wins.
pub struct LampMode {
    pub name: String,
    pub command: String,
}

/// A count file that switches `mode` on while it holds a positive count.
pub struct CountFileConfig {
    pub mode: String,
    pub file: String,
}

/// Bindings of the mail-count files use the same shape as any other count file.
pub type EmailConfig = CountFileConfig;

/// A recurring schedule in cron syntax.
pub struct ScheduleConfig(pub cron::Schedule);

/// A timer: `mode` is switched on at each occurrence of `schedule`, for `duration` seconds.
pub struct TimerConfig {
    pub mode: String,
    pub schedule: ScheduleConfig,
    pub duration: u64,
}

/// Modes ranked by their order, the mode active from the start, and what switches modes.
pub struct Config {
    pub output_file: Option<String>,
    pub default_mode: String,
    pub modes: Vec<LampMode>,
    pub timers: Vec<TimerConfig>,
    pub count_files: Vec<CountFileConfig>,
}

/// Command-line arguments: an output file that overrides the configured one, and the
/// configuration file.
pub struct Args {
    pub file: Option<String>,
    pub configfile: String,
}

/// Why a configuration cannot be used.
pub enum ConfigError {
    /// The named mode is referred to but not defined.
    UndefinedMode(String),
    /// Neither the arguments nor the configuration name an output file.
    NoOutputFile,
}

pub open spec fn timer_modes(timers: Seq<TimerConfig>) -> Seq<Seq<char>> {
    timers.map_values(|t: TimerConfig| t.mode@)
}

pub open spec fn count_file_modes(files: Seq<CountFileConfig>) -> Seq<Seq<char>> {
    files.map_values(|f: CountFileConfig| f.mode@)
}

/// Every mode name that the configuration refers to, in order: the default mode, then the
/// timers' modes, then the count files' modes.
pub open spec fn referenced_modes(config: Config) -> Seq<Seq<char>> {
    seq![config.default_mode@] + timer_modes(config.timers@) + count_file_modes(config.count_files@)
}

/// The first of `refs`, from position `k` on, that is not among `names`.
pub open spec fn first_undefined_from(refs: Seq<Seq<char>>, names: Seq<Seq<char>>, k: int) -> Option<
    Seq<char>,
>
    decreases refs.len() - k,
{
    if k < 0 || k >= refs.len() {
        None
    } else if !names.contains(refs[k]) {
        Some(refs[k])
    } else {
        first_undefined_from(refs, names, k + 1)
    }
}

/// The first mode that the configuration refers to without defining it.
pub open spec fn first_undefined(config: Config) -> Option<Seq<char>> {
    first_undefined_from(referenced_modes(config), names_of(config.modes@), 0)
}

/// Whether `name` is one of the modes.
fn is_defined(modes: &Vec<LampMode>, name: &String) -> (r: bool)
    ensures
        r == names_of(modes@).contains(name@),
{
    let mut k: usize = 0;
    while k < modes.len()
        invariant
            k <= modes@.len(),
            forall|m: int| 0 <= m < k ==> modes@[m].name@ != name@,
        decreases modes@.len() - k,
    {
        if modes[k].name == *name {
            assert(names_of(modes@)[k as int] == name@);
            return true;
        }
        k = k + 1;
    }
    proof {
        if names_of(modes@).contains(name@) {
            let m = choose|m: int| 0 <= m < names_of(modes@).len() && names_of(modes@)[m] == name@;
            assert(modes@[m].name@ == name@);
        }
    }
    false
}

/// Every mode name that `config` refers to, in order.
fn referenced(config: &Config) -> (r: Vec<String>)
    ensures
        r@.map_values(|s: String| s@) == referenced_modes(*config),
{
    let mut r: Vec<String> = Vec::new();
    r.push(config.default_mode.clone());
    let mut i: usize = 0;
    while i < config.timers.len()
        invariant
            i <= config.timers@.len(),
            r@.len() == 1 + i,
            r@[0]@ == config.default_mode@,
            forall|k: int| 0 <= k < i ==> r@[1 + k]@ == config.timers@[k].mode@,
        decreases config.timers@.len() - i,
    {
        r.push(config.timers[i].mode.clone());
        i = i + 1;
    }
    let t = config.timers.len();
    let mut j: usize = 0;
    while j < config.count_files.len()
        invariant
            t == config.timers@.len(),
            j <= config.count_files@.len(),
            r@.len() == 1 + t + j,
            r@[0]@ == config.default_mode@,
            forall|k: int| 0 <= k < t ==> r@[1 + k]@ == config.timers@[k].mode@,
            forall|k: int| 0 <= k < j ==> r@[1 + t + k]@ == config.count_files@[k].mode@,
        decreases config.count_files@.len() - j,
    {
        r.push(config.count_files[j].mode.clone());
        j = j + 1;
    }
    assert(r@.map_values(|s: String| s@) =~= referenced_modes(*config));
    r
}

/// Checks that every mode the configuration refers to (the default mode, the timers' and
/// the count files' modes) is defined, and hands the configuration back if so; otherwise
/// names the first undefined one.
pub fn load(config: Config) -> (r: Result<Config, ConfigError>)
    ensures
        first_undefined(config) is None ==> r == Ok::<Config, ConfigError>(config),
        first_undefined(config) matches Some(m) ==> r matches Err(ConfigError::UndefinedMode(e))
            && e@ == m,
{
    let refs = referenced(&config);
    let ghost rv = refs@.map_values(|s: String| s@);
    let ghost names = names_of(config.modes@);
    let mut k: usize = 0;
    while k < refs.len()
        invariant
            k <= refs@.len(),
            rv == refs@.map_values(|s: String| s@),
            rv == referenced_modes(config),
            names == names_of(config.modes@),
            first_undefined(config) == first_undefined_from(rv, names, k as int),
        decreases refs@.len() - k,
    {
        if !is_defined(&config.modes, &refs[k]) {
            assert(rv[k as int] == refs@[k as int]@);
            return Err(ConfigError::UndefinedMode(refs[k].clone()));
        }
        assert(rv[k as int] == refs@[k as int]@);
        k = k + 1;
    }
    Ok(config)
}

/// The output file: the one given in the arguments, else the configured one.
pub fn output_file(args: &Args, config: &Config) -> (r: Result<String, ConfigError>)
    ensures
        args.file matches Some(f) ==> r matches Ok(o) && o@ == f@,
        args.file is None ==> (config.output_file matches Some(f) ==> r matches Ok(o) && o@ == f@),
        args.file is None && config.output_file is None ==> r matches Err(ConfigError::NoOutputFile),
{
    match &args.file {
        Some(f) => Ok(f.clone()),
        None => match &config.output_file {
            Some(f) => Ok(f.clone()),
            None => Err(ConfigError::NoOutputFile),
        },
    }
}

} // verus!
