//! What the user has decided: about each shape, and about the job.

use vstd::prelude::*;
use crate::config::{NestConfigDto, PlacementTypeDto};
use crate::scalar::{law_named_measures_are_what_they_say, stands_for_whole, Scalar};
use crate::shape::PolygonDto;
use crate::text::{trim_text, trimmed};

verus! {

/// What a shape is in the job.
#[derive(Clone, Copy, PartialEq, Eq, Structural, Debug)]
pub enum Role {
    Part,
    Sheet,
    Skip,
}

impl Role {
    pub const ALL: [Role; 3] = [Role::Part, Role::Sheet, Role::Skip];

    /// The key of the role's name.
    pub fn key(self) -> (r: &'static str)
        ensures
            r@ == match self {
                Role::Part => "role_part"@,
                Role::Sheet => "role_sheet"@,
                Role::Skip => "role_skip"@,
            },
    {
        match self {
            Role::Part => "role_part",
            Role::Sheet => "role_sheet",
            Role::Skip => "role_skip",
        }
    }
}

/// Which angles a part may be placed at, in place of the job's own grid.
#[derive(Clone, Copy, PartialEq, Eq, Structural, Debug)]
pub enum RotRule {
    Any,
    Half,
    Quarter,
    Fixed,
    /// A quarter turn and no other: for a part drawn across the grain.
    Fixed90,
    HalfCross,
}

/// The angles of a rule, in degrees; nothing where any angle is allowed.
pub open spec fn rule_angles(rule: RotRule) -> Option<Seq<Scalar>> {
    match rule {
        RotRule::Any => None,
        RotRule::Half => Some(seq![Scalar::zero(), Scalar::half_turn()]),
        RotRule::Quarter => Some(
            seq![
                Scalar::zero(),
                Scalar::quarter_turn(),
                Scalar::half_turn(),
                Scalar::three_quarter_turn(),
            ],
        ),
        RotRule::Fixed => Some(seq![Scalar::zero()]),
        RotRule::Fixed90 => Some(seq![Scalar::quarter_turn()]),
        RotRule::HalfCross => Some(seq![Scalar::quarter_turn(), Scalar::three_quarter_turn()]),
    }
}

/// Whether two lists of angles are equal, angle for angle as floats compare.
pub open spec fn equal_angles(a: Seq<Scalar>, b: Seq<Scalar>) -> bool {
    a.len() == b.len() && forall|i: int| 0 <= i < a.len() ==> (#[trigger] a[i]).equals(b[i])
}

/// Whether a list of angles is that of a rule.
pub open spec fn matches_rule(rule: RotRule, angles: Seq<Scalar>) -> bool {
    match rule_angles(rule) {
        Some(own) => equal_angles(own, angles),
        None => false,
    }
}

/// The rule that a stored list of angles stands for: the first that has exactly
/// these angles, and no constraint where none has. A list this build does not
/// know must not turn into a different constraint.
pub open spec fn rule_of_angles(angles: Option<Seq<Scalar>>) -> RotRule {
    match angles {
        None => RotRule::Any,
        Some(list) => if matches_rule(RotRule::Half, list) {
            RotRule::Half
        } else if matches_rule(RotRule::Quarter, list) {
            RotRule::Quarter
        } else if matches_rule(RotRule::Fixed, list) {
            RotRule::Fixed
        } else if matches_rule(RotRule::Fixed90, list) {
            RotRule::Fixed90
        } else if matches_rule(RotRule::HalfCross, list) {
            RotRule::HalfCross
        } else {
            RotRule::Any
        },
    }
}

/// The view of an optional list.
pub open spec fn list_view(list: Option<Vec<Scalar>>) -> Option<Seq<Scalar>> {
    match list {
        Some(l) => Some(l@),
        None => None,
    }
}

fn angles_equal(a: &Vec<Scalar>, b: &Vec<Scalar>) -> (r: bool)
    ensures
        r == equal_angles(a@, b@),
{
    if a.len() != b.len() {
        return false;
    }
    let mut i: usize = 0;
    while i < a.len()
        invariant
            i <= a.len(),
            a.len() == b.len(),
            forall|k: int| 0 <= k < i ==> (#[trigger] a@[k]).equals(b@[k]),
        decreases a.len() - i,
    {
        if !a[i].same(b[i]) {
            assert(!a@[i as int].equals(b@[i as int]));
            return false;
        }
        i += 1;
    }
    true
}

impl RotRule {
    pub const ALL: [RotRule; 6] = [
        RotRule::Any,
        RotRule::Half,
        RotRule::Quarter,
        RotRule::Fixed,
        RotRule::Fixed90,
        RotRule::HalfCross,
    ];

    /// The key of the rule's name.
    pub fn key(self) -> (r: &'static str)
        ensures
            r@ == match self {
                RotRule::Any => "rot_any"@,
                RotRule::Half => "rot_0_180"@,
                RotRule::Quarter => "rot_quarter"@,
                RotRule::Fixed => "rot_fixed"@,
                RotRule::Fixed90 => "rot_fixed_90"@,
                RotRule::HalfCross => "rot_90_270"@,
            },
    {
        match self {
            RotRule::Any => "rot_any",
            RotRule::Half => "rot_0_180",
            RotRule::Quarter => "rot_quarter",
            RotRule::Fixed => "rot_fixed",
            RotRule::Fixed90 => "rot_fixed_90",
            RotRule::HalfCross => "rot_90_270",
        }
    }

    /// The rule's angles.
    pub fn angles(self) -> (r: Option<Vec<Scalar>>)
        ensures
            list_view(r) == rule_angles(self),
    {
        match self {
            RotRule::Any => None,
            RotRule::Half => {
                let v: Vec<Scalar> = vec![Scalar::zero(), Scalar::half_turn()];
                assert(v@ =~= seq![Scalar::zero(), Scalar::half_turn()]);
                Some(v)
            },
            RotRule::Quarter => {
                let v: Vec<Scalar> = vec![
                    Scalar::zero(),
                    Scalar::quarter_turn(),
                    Scalar::half_turn(),
                    Scalar::three_quarter_turn(),
                ];
                assert(v@ =~= rule_angles(RotRule::Quarter)->0);
                Some(v)
            },
            RotRule::Fixed => {
                let v: Vec<Scalar> = vec![Scalar::zero()];
                assert(v@ =~= seq![Scalar::zero()]);
                Some(v)
            },
            RotRule::Fixed90 => {
                let v: Vec<Scalar> = vec![Scalar::quarter_turn()];
                assert(v@ =~= seq![Scalar::quarter_turn()]);
                Some(v)
            },
            RotRule::HalfCross => {
                let v: Vec<Scalar> = vec![Scalar::quarter_turn(), Scalar::three_quarter_turn()];
                assert(v@ =~= seq![Scalar::quarter_turn(), Scalar::three_quarter_turn()]);
                Some(v)
            },
        }
    }

    fn has(self, angles: &Vec<Scalar>) -> (r: bool)
        ensures
            r == matches_rule(self, angles@),
    {
        match self.angles() {
            Some(own) => angles_equal(&own, angles),
            None => false,
        }
    }

    /// The rule that a stored list of angles stands for.
    pub fn from_angles(angles: &Option<Vec<Scalar>>) -> (r: RotRule)
        ensures
            r == rule_of_angles(list_view(*angles)),
    {
        match angles {
            None => RotRule::Any,
            Some(list) => if RotRule::Half.has(list) {
                RotRule::Half
            } else if RotRule::Quarter.has(list) {
                RotRule::Quarter
            } else if RotRule::Fixed.has(list) {
                RotRule::Fixed
            } else if RotRule::Fixed90.has(list) {
                RotRule::Fixed90
            } else if RotRule::HalfCross.has(list) {
                RotRule::HalfCross
            } else {
                RotRule::Any
            },
        }
    }
}

/// A rule that is stored as its angles comes back as itself.
pub proof fn law_rotation_rules_survive_storing(rule: RotRule)
    ensures
        rule_of_angles(rule_angles(rule)) == rule,
{
    match rule_angles(rule) {
        Some(own) => {
            assert(equal_angles(own, own));
            let half = rule_angles(RotRule::Half)->0;
            let fixed = rule_angles(RotRule::Fixed)->0;
            let fixed90 = rule_angles(RotRule::Fixed90)->0;
            let cross = rule_angles(RotRule::HalfCross)->0;
            assert(!equal_angles(fixed, fixed90)) by {
                assert(!fixed[0].equals(fixed90[0]));
            }
            assert(!equal_angles(half, cross)) by {
                assert(!half[0].equals(cross[0]));
            }
        },
        None => {},
    }
}

/// A list of angles that is no rule's is read as no constraint.
pub proof fn law_unknown_angles_constrain_nothing(angles: Seq<Scalar>)
    requires
        forall|rule: RotRule| !matches_rule(rule, angles),
    ensures
        rule_of_angles(Some(angles)) == RotRule::Any,
{
}

/// Whether a part may be flipped, in place of the job's own switch.
#[derive(Clone, Copy, PartialEq, Eq, Structural, Debug)]
pub enum MirrorRule {
    Job,
    Allow,
    Deny,
}

/// A rule as it is stored.
pub open spec fn mirror_option(rule: MirrorRule) -> Option<bool> {
    match rule {
        MirrorRule::Job => None,
        MirrorRule::Allow => Some(true),
        MirrorRule::Deny => Some(false),
    }
}

/// The rule that a stored value stands for.
pub open spec fn mirror_rule(value: Option<bool>) -> MirrorRule {
    match value {
        None => MirrorRule::Job,
        Some(true) => MirrorRule::Allow,
        Some(false) => MirrorRule::Deny,
    }
}

impl MirrorRule {
    pub const ALL: [MirrorRule; 3] = [MirrorRule::Job, MirrorRule::Allow, MirrorRule::Deny];

    /// The key of the rule's name.
    pub fn key(self) -> (r: &'static str)
        ensures
            r@ == match self {
                MirrorRule::Job => "mirror_job"@,
                MirrorRule::Allow => "mirror_allow"@,
                MirrorRule::Deny => "mirror_deny"@,
            },
    {
        match self {
            MirrorRule::Job => "mirror_job",
            MirrorRule::Allow => "mirror_allow",
            MirrorRule::Deny => "mirror_deny",
        }
    }

    /// The rule that a stored value stands for.
    pub fn from_option(value: Option<bool>) -> (r: MirrorRule)
        ensures
            r == mirror_rule(value),
    {
        match value {
            None => MirrorRule::Job,
            Some(true) => MirrorRule::Allow,
            Some(false) => MirrorRule::Deny,
        }
    }

    /// The rule as it is stored.
    pub fn as_option(self) -> (r: Option<bool>)
        ensures
            r == mirror_option(self),
    {
        match self {
            MirrorRule::Job => None,
            MirrorRule::Allow => Some(true),
            MirrorRule::Deny => Some(false),
        }
    }
}

/// Storing a mirror rule and reading it back, either way round, changes
/// nothing.
pub proof fn law_mirror_rules_survive_storing(rule: MirrorRule, value: Option<bool>)
    ensures
        mirror_rule(mirror_option(rule)) == rule,
        mirror_option(mirror_rule(value)) == value,
{
}

/// One shape of the job and what the user decided about it.
pub struct ShapeRow {
    /// Given out once and never again; not an index.
    pub ui_id: usize,
    /// Where it came from. Shown, never read.
    pub file: String,
    pub poly: PolygonDto,
    pub role: Role,
    pub qty: usize,
    pub rot: RotRule,
    pub mirror: MirrorRule,
    pub selected: bool,
    /// The area of the outline, worked out once.
    pub area: Scalar,
    /// The library entry the row came from, if any.
    pub from_store: Option<usize>,
}

impl ShapeRow {
    /// A row for a shape nothing has been decided about.
    pub fn new(ui_id: usize, file: String, poly: PolygonDto, area: Scalar) -> (r: Self)
        ensures
            r == (ShapeRow {
                ui_id,
                file,
                poly,
                role: Role::Part,
                qty: 1,
                rot: RotRule::Any,
                mirror: MirrorRule::Job,
                selected: false,
                area,
                from_store: None,
            }),
    {
        ShapeRow {
            ui_id,
            file,
            poly,
            role: Role::Part,
            qty: 1,
            rot: RotRule::Any,
            mirror: MirrorRule::Job,
            selected: false,
            area,
            from_store: None,
        }
    }
}

/// The settings as the form holds them, half-typed numbers included.
pub struct ConfigForm {
    pub margin: Scalar,
    pub spacing: Scalar,
    pub kerf: Scalar,
    pub runs: usize,
    /// Blank means that the cleaning pass is off.
    pub cleanup_threshold: String,
    pub mirror: bool,
    pub placement_type: PlacementTypeDto,
    pub rotations: u32,
    pub population_size: usize,
    pub mutation_rate: Scalar,
    pub generations: usize,
    pub dominant_threshold: Scalar,
    pub max_threads: usize,
    pub seed: u64,
    pub curve_tolerance: Scalar,
}

/// The form as it is before anything is typed into it.
pub open spec fn starting_form(form: ConfigForm) -> bool {
    &&& form.margin == Scalar::zero()
    &&& form.spacing == Scalar::zero()
    &&& form.kerf == Scalar::zero()
    &&& form.runs == 6
    &&& form.cleanup_threshold@.len() == 0
    &&& !form.mirror
    &&& form.placement_type == PlacementTypeDto::TightFit
    &&& form.rotations == 2
    &&& form.population_size == 6
    &&& form.mutation_rate == Scalar::ten()
    &&& form.generations == 5
    &&& form.dominant_threshold == Scalar::nine_tenths()
    &&& form.max_threads == 0
    &&& form.seed == 0
    &&& form.curve_tolerance == Scalar::tenth()
}

impl Default for ConfigForm {
    fn default() -> (r: Self)
        ensures
            starting_form(r),
    {
        ConfigForm {
            margin: Scalar::zero(),
            spacing: Scalar::zero(),
            kerf: Scalar::zero(),
            runs: 6,
            cleanup_threshold: String::new(),
            mirror: false,
            placement_type: PlacementTypeDto::TightFit,
            rotations: 2,
            population_size: 6,
            mutation_rate: Scalar::ten(),
            generations: 5,
            dominant_threshold: Scalar::nine_tenths(),
            max_threads: 0,
            seed: 0,
            curve_tolerance: Scalar::tenth(),
        }
    }
}

impl ConfigForm {
    /// What stands in the field of the cleaning pass, without blanks around it.
    pub fn cleanup_entry(&self) -> (r: &str)
        ensures
            r@ == trimmed(self.cleanup_threshold@),
    {
        trim_text(self.cleanup_threshold.as_str())
    }

    /// The settings of the job. `cleanup` is the number in the field of the
    /// cleaning pass, or nothing where there is none to be read.
    pub fn to_dto(&self, cleanup: Option<Scalar>) -> (r: NestConfigDto)
        ensures
            r == (NestConfigDto {
                placement_type: self.placement_type,
                rotations: self.rotations,
                population_size: self.population_size,
                mutation_rate: self.mutation_rate,
                dominant_part_area_threshold: self.dominant_threshold,
                curve_tolerance: self.curve_tolerance,
                generations: self.generations,
                margin: self.margin,
                spacing: self.spacing,
                kerf: self.kerf,
                max_threads: self.max_threads,
                seed: self.seed,
                runs: self.runs,
                cleanup_threshold_percent: cleanup,
                mirror: self.mirror,
            }),
    {
        NestConfigDto {
            placement_type: self.placement_type,
            rotations: self.rotations,
            population_size: self.population_size,
            mutation_rate: self.mutation_rate,
            dominant_part_area_threshold: self.dominant_threshold,
            curve_tolerance: self.curve_tolerance,
            generations: self.generations,
            margin: self.margin,
            spacing: self.spacing,
            kerf: self.kerf,
            max_threads: self.max_threads,
            seed: self.seed,
            runs: self.runs,
            cleanup_threshold_percent: cleanup,
            mirror: self.mirror,
        }
    }

    /// Takes over saved settings. `shown` is the saved threshold of the cleaning
    /// pass as text. Mirroring is not taken over: a switch that quietly survives
    /// into a job whose material has a side makes scrap.
    pub fn from_dto(&mut self, d: &NestConfigDto, shown: String)
        ensures
            final(self).mirror == old(self).mirror,
            final(self).placement_type == d.placement_type,
            final(self).rotations == d.rotations,
            final(self).population_size == d.population_size,
            final(self).mutation_rate == d.mutation_rate,
            final(self).dominant_threshold == d.dominant_part_area_threshold,
            final(self).curve_tolerance == d.curve_tolerance,
            final(self).generations == d.generations,
            final(self).margin == d.margin,
            final(self).spacing == d.spacing,
            final(self).kerf == d.kerf,
            final(self).max_threads == d.max_threads,
            final(self).seed == d.seed,
            final(self).runs == d.runs,
            final(self).cleanup_threshold@ == match d.cleanup_threshold_percent {
                Some(_) => shown@,
                None => Seq::empty(),
            },
    {
        self.placement_type = d.placement_type;
        self.rotations = d.rotations;
        self.population_size = d.population_size;
        self.mutation_rate = d.mutation_rate;
        self.dominant_threshold = d.dominant_part_area_threshold;
        self.curve_tolerance = d.curve_tolerance;
        self.generations = d.generations;
        self.margin = d.margin;
        self.spacing = d.spacing;
        self.kerf = d.kerf;
        self.max_threads = d.max_threads;
        self.seed = d.seed;
        self.runs = d.runs;
        self.cleanup_threshold = match d.cleanup_threshold_percent {
            Some(_) => shown,
            None => String::new(),
        };
    }

    /// The key of the first field that holds no number, of those that the engine
    /// would turn away for it: margin, spacing, mutation rate, dominant threshold
    /// and curve tolerance. Whole numbers are always numbers, and the kerf is
    /// only ever added to the clearances.
    pub open spec fn nan_field(&self) -> Option<Seq<char>> {
        if self.margin.nan() {
            Some("cfg_margin"@)
        } else if self.spacing.nan() {
            Some("cfg_spacing"@)
        } else if self.mutation_rate.nan() {
            Some("cfg_mutation"@)
        } else if self.dominant_threshold.nan() {
            Some("cfg_dominant"@)
        } else if self.curve_tolerance.nan() {
            Some("tolerance_label"@)
        } else {
            None
        }
    }

    /// The key of the first of those fields that holds no number, so that an
    /// empty field is named rather than turned away by the engine.
    pub fn first_nan_field(&self) -> (r: Option<&'static str>)
        ensures
            match r {
                Some(key) => self.nan_field() == Some(key@),
                None => self.nan_field() is None,
            },
    {
        if self.margin.is_nan() {
            Some("cfg_margin")
        } else if self.spacing.is_nan() {
            Some("cfg_spacing")
        } else if self.mutation_rate.is_nan() {
            Some("cfg_mutation")
        } else if self.dominant_threshold.is_nan() {
            Some("cfg_dominant")
        } else if self.curve_tolerance.is_nan() {
            Some("tolerance_label")
        } else {
            None
        }
    }
}

/// A one-line message under a panel.
pub struct Status {
    pub text: String,
    pub error: bool,
}

/// What a [`Status`] holds.
#[verifier::ext_equal]
pub struct StatusModel {
    pub text: Seq<char>,
    pub error: bool,
}

impl View for Status {
    type V = StatusModel;

    open spec fn view(&self) -> StatusModel {
        StatusModel { text: self.text@, error: self.error }
    }
}

impl Default for Status {
    fn default() -> (r: Self)
        ensures
            r@ == (StatusModel { text: Seq::empty(), error: false }),
    {
        Status { text: String::new(), error: false }
    }
}

impl Status {
    /// Says something.
    pub fn ok(&mut self, text: String)
        ensures
            final(self)@ == (StatusModel { text: text@, error: false }),
    {
        self.text = text;
        self.error = false;
    }

    /// Says that something went wrong.
    pub fn err(&mut self, text: String)
        ensures
            final(self)@ == (StatusModel { text: text@, error: true }),
    {
        self.text = text;
        self.error = true;
    }

    /// Says nothing.
    pub fn clear(&mut self)
        ensures
            final(self)@ == (StatusModel { text: Seq::empty(), error: false }),
    {
        self.text = String::new();
        self.error = false;
    }
}

// --- what rows and forms promise ------------------------------------------

/// A rule of turning stands for the degrees in its name: any leaves it open,
/// fixed is as drawn, half is that and upside down, quarter every right angle,
/// and across the grain the two that lie crosswise.
pub proof fn law_a_turning_rule_gives_its_degrees(rule: RotRule, r: Option<Vec<Scalar>>)
    requires
        call_ensures(RotRule::angles, (rule,), r),
    ensures
        r is None <==> rule == RotRule::Any,
        r matches Some(angles) ==> {
            &&& rule == RotRule::Fixed ==> angles@.len() == 1 && angles@[0].bits == 0
            &&& rule == RotRule::Half ==> angles@.len() == 2 && angles@[0].bits == 0
                && stands_for_whole(angles@[1], 7, 128, 180)
            &&& rule == RotRule::Quarter ==> angles@.len() == 4 && angles@[0].bits == 0
                && stands_for_whole(angles@[1], 6, 64, 90) && stands_for_whole(
                angles@[2],
                7,
                128,
                180,
            ) && stands_for_whole(angles@[3], 8, 256, 270)
            &&& rule == RotRule::Fixed90 ==> angles@.len() == 1 && stands_for_whole(
                angles@[0],
                6,
                64,
                90,
            )
            &&& rule == RotRule::HalfCross ==> angles@.len() == 2 && stands_for_whole(
                angles@[0],
                6,
                64,
                90,
            ) && stands_for_whole(angles@[1], 8, 256, 270)
        },
{
    law_named_measures_are_what_they_say();
}

/// Reading a rule back from the angles it gives finds that rule, and what angles
/// are read as gives back angles that are equal one for one, unless nothing was
/// asked or no rule has them.
pub proof fn law_angles_are_read_as_their_rule(
    rule: RotRule,
    given: Option<Vec<Scalar>>,
    read: RotRule,
    other: Option<Vec<Scalar>>,
    found: RotRule,
    own: Option<Vec<Scalar>>,
)
    requires
        call_ensures(RotRule::angles, (rule,), given),
        call_ensures(RotRule::from_angles, (&given,), read),
        call_ensures(RotRule::from_angles, (&other,), found),
        call_ensures(RotRule::angles, (found,), own),
    ensures
        read == rule,
        other is None ==> found == RotRule::Any,
        own matches Some(angles) ==> other is Some && angles@.len() == other->Some_0@.len()
            && forall|i: int|
            0 <= i < angles@.len() ==> (#[trigger] angles@[i]).equals(other->Some_0@[i]),
{
    law_rotation_rules_survive_storing(rule);
}

/// A mirroring rule and the choice it stands for: following the job leaves it
/// open.
pub proof fn law_a_mirroring_rule_says_yes_or_no(
    rule: MirrorRule,
    choice: Option<bool>,
    given: Option<bool>,
    read: MirrorRule,
)
    requires
        call_ensures(MirrorRule::as_option, (rule,), choice),
        call_ensures(MirrorRule::from_option, (given,), read),
    ensures
        choice is None <==> rule == MirrorRule::Job,
        choice == Some(true) <==> rule == MirrorRule::Allow,
        choice == Some(false) <==> rule == MirrorRule::Deny,
        given is None <==> read == MirrorRule::Job,
        given == Some(true) <==> read == MirrorRule::Allow,
        given == Some(false) <==> read == MirrorRule::Deny,
{
}

/// Settings that are written to a job and read back into a form are the ones
/// that were there, but for mirroring, which the form keeps, and the cleaning
/// threshold, which is shown as the text for it.
pub proof fn law_settings_survive_a_job(
    form: ConfigForm,
    cleanup: Option<Scalar>,
    job: NestConfigDto,
    other: &mut ConfigForm,
    shown: String,
)
    requires
        call_ensures(ConfigForm::to_dto, (&form, cleanup), job),
        call_ensures(ConfigForm::from_dto, (other, &job, shown), ()),
    ensures
        job.cleanup_threshold_percent == cleanup,
        job.mirror == form.mirror,
        final(other).mirror == old(other).mirror,
        final(other).margin == form.margin,
        final(other).spacing == form.spacing,
        final(other).kerf == form.kerf,
        final(other).runs == form.runs,
        final(other).placement_type == form.placement_type,
        final(other).rotations == form.rotations,
        final(other).population_size == form.population_size,
        final(other).mutation_rate == form.mutation_rate,
        final(other).generations == form.generations,
        final(other).dominant_threshold == form.dominant_threshold,
        final(other).max_threads == form.max_threads,
        final(other).seed == form.seed,
        final(other).curve_tolerance == form.curve_tolerance,
        cleanup is Some ==> final(other).cleanup_threshold@ == shown@,
        cleanup is None ==> final(other).cleanup_threshold@.len() == 0,
{
}

/// A field that is no number is named, one such field and no sound one; and
/// where every field is a number none is named.
pub proof fn law_a_field_without_a_number_is_named(form: ConfigForm, r: Option<&'static str>)
    requires
        call_ensures(ConfigForm::first_nan_field, (&form,), r),
    ensures
        r is Some <==> form.margin.nan() || form.spacing.nan() || form.mutation_rate.nan()
            || form.dominant_threshold.nan() || form.curve_tolerance.nan(),
        r matches Some(key) ==> {
            ||| key@ == "cfg_margin"@ && form.margin.nan()
            ||| key@ == "cfg_spacing"@ && form.spacing.nan()
            ||| key@ == "cfg_mutation"@ && form.mutation_rate.nan()
            ||| key@ == "cfg_dominant"@ && form.dominant_threshold.nan()
            ||| key@ == "tolerance_label"@ && form.curve_tolerance.nan()
        },
{
}

/// A status line says the text it was given, and whether that is bad news.
pub proof fn law_a_status_says_what_it_was_told(
    good: &mut Status,
    bad: &mut Status,
    none: &mut Status,
    text: String,
)
    requires
        call_ensures(Status::ok, (good, text), ()),
        call_ensures(Status::err, (bad, text), ()),
        call_ensures(Status::clear, (none,), ()),
    ensures
        final(good).text@ == text@ && !final(good).error,
        final(bad).text@ == text@ && final(bad).error,
        final(none).text@.len() == 0 && !final(none).error,
{
    assert(final(good)@.text == final(good).text@ && final(good)@.error == final(good).error);
    assert(final(bad)@.text == final(bad).text@ && final(bad)@.error == final(bad).error);
    assert(final(none)@.text == final(none).text@ && final(none)@.error == final(none).error);
}

/// A shape that nothing has been decided about is one part, free to be turned and
/// mirrored as the job says, with the outline and the area it was read with.
pub proof fn law_a_new_row_decides_nothing(
    ui_id: usize,
    file: String,
    poly: PolygonDto,
    area: Scalar,
    r: ShapeRow,
)
    requires
        call_ensures(ShapeRow::new, (ui_id, file, poly, area), r),
    ensures
        r.ui_id == ui_id,
        r.file == file,
        r.poly == poly,
        r.area == area,
        r.role == Role::Part,
        r.qty == 1,
        r.rot == RotRule::Any,
        r.mirror == MirrorRule::Job,
        !r.selected,
        r.from_store is None,
{
}

} // verus!
