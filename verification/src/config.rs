//! The settings of a nest job and what they must satisfy.

use vstd::prelude::*;
use crate::scalar::Scalar;
use crate::text::same_text;

verus! {

/// How a candidate position for a part is scored.
#[derive(Clone, Copy, PartialEq, Eq, Structural, Debug)]
pub enum PlacementTypeDto {
    Gravity,
    Box,
    ConvexHull,
    TightFit,
    GravityTightFit,
    GravityCorrective,
}

/// The settings of one nest job.
#[derive(Clone, Copy, PartialEq, Eq, Structural, Debug)]
pub struct NestConfigDto {
    pub placement_type: PlacementTypeDto,
    pub rotations: u32,
    pub population_size: usize,
    pub mutation_rate: Scalar,
    pub dominant_part_area_threshold: Scalar,
    pub curve_tolerance: Scalar,
    pub generations: usize,
    pub margin: Scalar,
    pub spacing: Scalar,
    pub kerf: Scalar,
    /// 0 means uncapped.
    pub max_threads: usize,
    pub seed: u64,
    pub runs: usize,
    pub cleanup_threshold_percent: Option<Scalar>,
    pub mirror: bool,
}

/// The quantity of a part whose quantity is not given.
pub fn one() -> (r: usize)
    ensures
        r == 1,
{
    1
}

/// The number of runs of a job that does not say.
pub fn default_runs() -> (r: usize)
    ensures
        r == 1,
{
    1
}

/// Whether a value lies in `low..=high`; not-a-number lies nowhere.
pub open spec fn within(value: Scalar, low: Scalar, high: Scalar) -> bool {
    low.at_most(value) && value.at_most(high)
}

/// [`within`], computed.
pub fn is_within(value: Scalar, low: Scalar, high: Scalar) -> (r: bool)
    ensures
        r == within(value, low, high),
{
    low.le(value) && value.le(high)
}

/// The first thing wrong with a job's engine settings, as the message the user
/// reads. The lower limits are what the search needs; the upper ones only stop
/// a mistyped number from pinning the machine.
pub open spec fn config_problem(config: NestConfigDto) -> Option<Seq<char>> {
    if config.rotations == 0 || config.rotations > 360 {
        Some("rotations must be between 1 and 360"@)
    } else if config.population_size < 2 || config.population_size > 1000 {
        Some("population_size must be between 2 and 1000"@)
    } else if config.generations == 0 || config.generations > 10_000 {
        Some("generations must be between 1 and 10000"@)
    } else if config.max_threads > 256 {
        Some("max_threads must be 256 or less (0 means uncapped)"@)
    } else if config.margin.below(Scalar::zero()) {
        Some("margin must be >= 0"@)
    } else if config.spacing.below(Scalar::zero()) {
        Some("spacing must be >= 0"@)
    } else if !within(config.mutation_rate, Scalar::zero(), Scalar::hundred()) {
        Some("mutation_rate must be between 0 and 100"@)
    } else if config.curve_tolerance.at_most(Scalar::zero()) {
        Some("curve_tolerance must be > 0"@)
    } else if !(Scalar::zero().below(config.dominant_part_area_threshold)
        && config.dominant_part_area_threshold.at_most(Scalar::unit())) {
        Some("dominant_part_area_threshold must be between 0 (exclusive) and 1"@)
    } else {
        None
    }
}

/// A check's outcome: success where there is no problem, and otherwise the
/// problem itself as the error.
pub open spec fn reports(outcome: Result<(), String>, problem: Option<Seq<char>>) -> bool {
    match outcome {
        Ok(_) => problem is None,
        Err(message) => problem == Some(message@),
    }
}

/// Checks the settings that every engine call reads.
pub fn validate_nest_config(config: &NestConfigDto) -> (r: Result<(), String>)
    ensures
        reports(r, config_problem(*config)),
{
    if config.rotations == 0 || config.rotations > 360 {
        return Err("rotations must be between 1 and 360".to_owned());
    }
    if config.population_size < 2 || config.population_size > 1000 {
        return Err("population_size must be between 2 and 1000".to_owned());
    }
    if config.generations == 0 || config.generations > 10_000 {
        return Err("generations must be between 1 and 10000".to_owned());
    }
    if config.max_threads > 256 {
        return Err("max_threads must be 256 or less (0 means uncapped)".to_owned());
    }
    if config.margin.lt(Scalar::zero()) {
        return Err("margin must be >= 0".to_owned());
    }
    if config.spacing.lt(Scalar::zero()) {
        return Err("spacing must be >= 0".to_owned());
    }
    if !is_within(config.mutation_rate, Scalar::zero(), Scalar::hundred()) {
        return Err("mutation_rate must be between 0 and 100".to_owned());
    }
    if config.curve_tolerance.le(Scalar::zero()) {
        return Err("curve_tolerance must be > 0".to_owned());
    }
    if !(Scalar::zero().lt(config.dominant_part_area_threshold) && config.dominant_part_area_threshold.le(
        Scalar::unit(),
    )) {
        return Err(
            "dominant_part_area_threshold must be between 0 (exclusive) and 1".to_owned(),
        );
    }
    Ok(())
}

/// The first thing wrong with a whole job, before any geometry is touched.
pub open spec fn job_problem(sheets: int, parts: int, config: NestConfigDto) -> Option<Seq<char>> {
    if sheets == 0 {
        Some("at least one sheet is required"@)
    } else if parts == 0 {
        Some("at least one part is required"@)
    } else if config_problem(config) is Some {
        config_problem(config)
    } else if config.runs == 0 || config.runs > 50 {
        Some("runs must be between 1 and 50"@)
    } else {
        match config.cleanup_threshold_percent {
            Some(t) if !within(t, Scalar::zero(), Scalar::hundred()) => Some(
                "cleanup_threshold_percent must be between 0 and 100"@,
            ),
            _ => None,
        }
    }
}

/// Checks a whole job, given how many sheets and parts it names.
pub fn validate_job(sheets: usize, parts: usize, config: &NestConfigDto) -> (r: Result<(), String>)
    ensures
        reports(r, job_problem(sheets as int, parts as int, *config)),
{
    if sheets == 0 {
        return Err("at least one sheet is required".to_owned());
    }
    if parts == 0 {
        return Err("at least one part is required".to_owned());
    }
    validate_nest_config(config)?;
    if config.runs == 0 || config.runs > 50 {
        return Err("runs must be between 1 and 50".to_owned());
    }
    if let Some(t) = config.cleanup_threshold_percent {
        if !is_within(t, Scalar::zero(), Scalar::hundred()) {
            return Err("cleanup_threshold_percent must be between 0 and 100".to_owned());
        }
    }
    Ok(())
}

/// What the engine goes by when it places a part.
#[derive(Clone, Copy, PartialEq, Eq, Structural, Debug)]
pub struct PlacementSettings {
    pub placement_type: PlacementTypeDto,
    pub rotations: u32,
    pub dominant_part_area_threshold: Scalar,
    pub curve_tolerance: Scalar,
    /// Whether layouts in bands are tried as well.
    pub banded_pass: bool,
}

impl NestConfigDto {
    /// What the engine goes by when it places a part. Bands are tried unless
    /// the switch against them is set to anything but `0`.
    pub fn placement_config(&self, no_banded: &Option<String>) -> (r: PlacementSettings)
        ensures
            r == (PlacementSettings {
                placement_type: self.placement_type,
                rotations: self.rotations,
                dominant_part_area_threshold: self.dominant_part_area_threshold,
                curve_tolerance: self.curve_tolerance,
                banded_pass: match no_banded {
                    Some(switch) => switch@ == "0"@,
                    None => true,
                },
            }),
    {
        let banded_pass = match no_banded {
            Some(switch) => same_text(switch.as_str(), "0"),
            None => true,
        };
        PlacementSettings {
            placement_type: self.placement_type,
            rotations: self.rotations,
            dominant_part_area_threshold: self.dominant_part_area_threshold,
            curve_tolerance: self.curve_tolerance,
            banded_pass,
        }
    }
}

/// The settings of a nest are accepted exactly where each of them lies in its
/// range: 1 to 360 rotations, a population of 2 to 1000, 1 to 10,000
/// generations, at most 256 threads, no negative margin or spacing, a mutation
/// rate of 0 to 100, a curve tolerance above 0 and a dominant share above 0 and
/// up to 1.
pub proof fn law_settings_in_range_are_accepted(config: &NestConfigDto, r: Result<(), String>)
    requires
        call_ensures(validate_nest_config, (config,), r),
    ensures
        r is Ok <==> {
            &&& 1 <= config.rotations <= 360
            &&& 2 <= config.population_size <= 1000
            &&& 1 <= config.generations <= 10_000
            &&& config.max_threads <= 256
            &&& !config.margin.below(Scalar::zero())
            &&& !config.spacing.below(Scalar::zero())
            &&& Scalar::zero().at_most(config.mutation_rate)
            &&& config.mutation_rate.at_most(Scalar::hundred())
            &&& !config.curve_tolerance.at_most(Scalar::zero())
            &&& Scalar::zero().below(config.dominant_part_area_threshold)
            &&& config.dominant_part_area_threshold.at_most(Scalar::unit())
        },
{
}

/// The message of a refusal names a setting that is out of its range, and says
/// the range.
pub proof fn law_a_refusal_names_a_wrong_setting(
    config: &NestConfigDto,
    r: Result<(), String>,
    message: Seq<char>,
)
    requires
        call_ensures(validate_nest_config, (config,), r),
        r is Err,
        r->Err_0@ == message,
    ensures
        ({
            ||| message == "rotations must be between 1 and 360"@ && !(1 <= config.rotations
                <= 360)
            ||| message == "population_size must be between 2 and 1000"@ && !(2
                <= config.population_size <= 1000)
            ||| message == "generations must be between 1 and 10000"@ && !(1
                <= config.generations <= 10_000)
            ||| message == "max_threads must be 256 or less (0 means uncapped)"@
                && config.max_threads > 256
            ||| message == "margin must be >= 0"@ && config.margin.below(Scalar::zero())
            ||| message == "spacing must be >= 0"@ && config.spacing.below(Scalar::zero())
            ||| message == "mutation_rate must be between 0 and 100"@ && !(
            Scalar::zero().at_most(config.mutation_rate) && config.mutation_rate.at_most(
                Scalar::hundred(),
            ))
            ||| message == "curve_tolerance must be > 0"@ && config.curve_tolerance.at_most(
                Scalar::zero(),
            )
            ||| message == "dominant_part_area_threshold must be between 0 (exclusive) and 1"@
                && !(Scalar::zero().below(config.dominant_part_area_threshold)
                && config.dominant_part_area_threshold.at_most(Scalar::unit()))
        }),
{
}

/// A job is accepted exactly where it has a sheet and a part, its settings are,
/// it makes 1 to 50 runs, and sheets are packed anew below 0 to 100 percent, if
/// at all.
pub proof fn law_a_job_in_range_is_accepted(
    sheets: usize,
    parts: usize,
    config: &NestConfigDto,
    settings: Result<(), String>,
    r: Result<(), String>,
)
    requires
        call_ensures(validate_nest_config, (config,), settings),
        call_ensures(validate_job, (sheets, parts, config), r),
    ensures
        r is Ok <==> {
            &&& sheets > 0
            &&& parts > 0
            &&& settings is Ok
            &&& 1 <= config.runs <= 50
            &&& config.cleanup_threshold_percent matches Some(percent) ==> {
                &&& Scalar::zero().at_most(percent)
                &&& percent.at_most(Scalar::hundred())
            }
        },
        sheets > 0 && parts > 0 && settings is Err ==> r is Err && r->Err_0@
            == settings->Err_0@,
        sheets == 0 ==> r is Err && r->Err_0@ == "at least one sheet is required"@,
        sheets > 0 && parts == 0 ==> r is Err && r->Err_0@ == "at least one part is required"@,
{
}

/// The placement takes its settings from the job as they are; layouts in bands
/// are tried unless a switch other than `0` is set.
pub proof fn law_placement_settings_come_from_the_job(
    config: &NestConfigDto,
    no_banded: &Option<String>,
    r: PlacementSettings,
)
    requires
        call_ensures(NestConfigDto::placement_config, (config, no_banded), r),
    ensures
        r.placement_type == config.placement_type,
        r.rotations == config.rotations,
        r.dominant_part_area_threshold == config.dominant_part_area_threshold,
        r.curve_tolerance == config.curve_tolerance,
        no_banded is None ==> r.banded_pass,
        no_banded matches Some(switch) ==> r.banded_pass == (switch@ == "0"@),
{
}

/// Of several wrong settings the first is told, in one order: the rotations, the
/// population, the generations, the threads, and then the measures.
pub proof fn law_the_first_wrong_setting_is_told(config: &NestConfigDto, r: Result<(), String>)
    requires
        call_ensures(validate_nest_config, (config,), r),
    ensures
        ({
            let rotations = 1 <= config.rotations <= 360;
            let population = 2 <= config.population_size <= 1000;
            let generations = 1 <= config.generations <= 10_000;
            let threads = config.max_threads <= 256;
            let counts = rotations && population && generations && threads;
            let margin = !config.margin.below(Scalar::zero());
            let spacing = !config.spacing.below(Scalar::zero());
            let mutation = Scalar::zero().at_most(config.mutation_rate)
                && config.mutation_rate.at_most(Scalar::hundred());
            let tolerance = !config.curve_tolerance.at_most(Scalar::zero());
            &&& !rotations ==> r is Err && r->Err_0@ == "rotations must be between 1 and 360"@
            &&& rotations && !population ==> r is Err && r->Err_0@
                == "population_size must be between 2 and 1000"@
            &&& rotations && population && !generations ==> r is Err && r->Err_0@
                == "generations must be between 1 and 10000"@
            &&& rotations && population && generations && !threads ==> r is Err && r->Err_0@
                == "max_threads must be 256 or less (0 means uncapped)"@
            &&& counts && !margin ==> r is Err && r->Err_0@ == "margin must be >= 0"@
            &&& counts && margin && !spacing ==> r is Err && r->Err_0@ == "spacing must be >= 0"@
            &&& counts && margin && spacing && !mutation ==> r is Err && r->Err_0@
                == "mutation_rate must be between 0 and 100"@
            &&& counts && margin && spacing && mutation && !tolerance ==> r is Err && r->Err_0@
                == "curve_tolerance must be > 0"@
        }),
{
}

/// A job is told what it lacks: first a sheet, then a part, then what is wrong
/// with its settings, and only then its runs and its cleaning threshold.
pub proof fn law_a_refused_job_is_told_why(
    sheets: usize,
    parts: usize,
    config: &NestConfigDto,
    settings: Result<(), String>,
    r: Result<(), String>,
)
    requires
        call_ensures(validate_nest_config, (config,), settings),
        call_ensures(validate_job, (sheets, parts, config), r),
    ensures
        sheets == 0 ==> r is Err && r->Err_0@ == "at least one sheet is required"@,
        sheets > 0 && parts == 0 ==> r is Err && r->Err_0@ == "at least one part is required"@,
        sheets > 0 && parts > 0 && settings is Err ==> r is Err && r->Err_0@
            == settings->Err_0@,
        sheets > 0 && parts > 0 && settings is Ok && !(1 <= config.runs <= 50) ==> r is Err
            && r->Err_0@ == "runs must be between 1 and 50"@,
        sheets > 0 && parts > 0 && settings is Ok && 1 <= config.runs <= 50 ==> (r is Err
            <==> config.cleanup_threshold_percent is Some && !(Scalar::zero().at_most(
            config.cleanup_threshold_percent->Some_0,
        ) && config.cleanup_threshold_percent->Some_0.at_most(Scalar::hundred()))),
        sheets > 0 && parts > 0 && settings is Ok && 1 <= config.runs <= 50 && r is Err
            ==> r->Err_0@ == "cleanup_threshold_percent must be between 0 and 100"@,
{
}

} // verus!
