//! The headless tool: its arguments, the job they make, and its report.

use vstd::prelude::*;
use crate::config::{NestConfigDto, PlacementTypeDto};
use crate::scalar::Scalar;
use crate::text::{
    chars_of, lowered, read_whole, same_text, texts_view, to_lowered, whole,
};

verus! {

/// What the tool prints when asked for help, and after a mistake.
pub const USAGE: &'static str = "nest - headless nesting

USAGE:
    nest [OPTIONS] <file.dxf|file.svg>...

    Every shape in every file is a part. The stock sheet is given by --sheet.

OPTIONS:
    --sheet WxH        stock size in mm (default 2440x1220)
    --sheets N         how many sheets are available (default 100)
    --qty N            copies of each part (default 1). Applies to the files
                       named after it, so quantities can be mixed:
                           nest --qty 250 a.dxf --qty 50 b.dxf
    --margin MM        clearance to the sheet edge (default 0)
    --spacing MM       clearance between parts (default 0)
    --kerf MM          cut width; adds to both of the above (default 0)
    --rotations N      angles tried per part (default 4)
    --generations N    GA generations (default 5)
    --population N     GA population (default 10)
    --runs N           escalating attempts (default 1)
    --seed N           RNG seed (default 0)
    --placement TYPE   gravity|box|convexhull|tightfit|gravitytightfit|gravitycorrective
                       (default tightfit)
    --tolerance MM     curve tessellation tolerance on import (default 0.1)
    --svg-unit UNIT    mm|cm|m|px - what one SVG user unit means
    --out FILE         write the result; format from the extension (.dxf/.svg)
    --unplaced         include never-placed parts in the export
    --json             print the summary as JSON instead of text
    -h, --help         this
";

/// What the arguments ask for.
pub struct Options {
    /// Each file with the quantity in force when it was named, if any, so that
    /// one job can mix quantities.
    pub files: Vec<(String, Option<usize>)>,
    pub sheet: (Scalar, Scalar),
    pub sheets: usize,
    pub qty: usize,
    pub out: Option<String>,
    pub include_unplaced: bool,
    pub json: bool,
    pub svg_unit: Option<String>,
    pub config: NestConfigDto,
}

/// What [`Options`] hold.
#[verifier::ext_equal]
pub struct OptionsModel {
    pub files: Seq<(Seq<char>, Option<usize>)>,
    pub sheet: (Scalar, Scalar),
    pub sheets: usize,
    pub qty: usize,
    pub out: Option<Seq<char>>,
    pub include_unplaced: bool,
    pub json: bool,
    pub svg_unit: Option<Seq<char>>,
    pub config: NestConfigDto,
}

/// What an optional text holds.
pub open spec fn maybe_text(text: Option<String>) -> Option<Seq<char>> {
    match text {
        Some(t) => Some(t@),
        None => None,
    }
}

impl View for Options {
    type V = OptionsModel;

    open spec fn view(&self) -> OptionsModel {
        OptionsModel {
            files: self.files@.map_values(|f: (String, Option<usize>)| (f.0@, f.1)),
            sheet: self.sheet,
            sheets: self.sheets,
            qty: self.qty,
            out: maybe_text(self.out),
            include_unplaced: self.include_unplaced,
            json: self.json,
            svg_unit: maybe_text(self.svg_unit),
            config: self.config,
        }
    }
}

/// The length of the stock sheet of a job that names none, 2440.
#[verifier::allow_in_spec]
pub fn stock_length() -> Scalar
    returns
        (Scalar { bits: 0x40a3_1000_0000_0000 }),
{
    Scalar { bits: 0x40a3_1000_0000_0000 }
}

/// The width of the stock sheet of a job that names none, 1220.
#[verifier::allow_in_spec]
pub fn stock_width() -> Scalar
    returns
        (Scalar { bits: 0x4093_1000_0000_0000 }),
{
    Scalar { bits: 0x4093_1000_0000_0000 }
}

/// What a run without options asks for.
pub open spec fn default_options() -> OptionsModel {
    OptionsModel {
        files: Seq::empty(),
        sheet: (stock_length(), stock_width()),
        sheets: 100,
        qty: 1,
        out: None,
        include_unplaced: false,
        json: false,
        svg_unit: None,
        config: NestConfigDto {
            placement_type: PlacementTypeDto::TightFit,
            rotations: 4,
            population_size: 10,
            mutation_rate: Scalar::ten(),
            dominant_part_area_threshold: Scalar::nine_tenths(),
            curve_tolerance: Scalar::tenth(),
            generations: 5,
            margin: Scalar::zero(),
            spacing: Scalar::zero(),
            kerf: Scalar::zero(),
            max_threads: 0,
            seed: 0,
            runs: 1,
            cleanup_threshold_percent: None,
            mirror: false,
        },
    }
}

impl Default for Options {
    fn default() -> (r: Self)
        ensures
            r@ == default_options(),
    {
        let r = Options {
            files: Vec::new(),
            sheet: (stock_length(), stock_width()),
            sheets: 100,
            qty: 1,
            out: None,
            include_unplaced: false,
            json: false,
            svg_unit: None,
            config: NestConfigDto {
                placement_type: PlacementTypeDto::TightFit,
                rotations: 4,
                population_size: 10,
                mutation_rate: Scalar::ten(),
                dominant_part_area_threshold: Scalar::nine_tenths(),
                curve_tolerance: Scalar::tenth(),
                generations: 5,
                margin: Scalar::zero(),
                spacing: Scalar::zero(),
                kerf: Scalar::zero(),
                max_threads: 0,
                seed: 0,
                runs: 1,
                cleanup_threshold_percent: None,
                mirror: false,
            },
        };
        assert(r@.files =~= Seq::empty());
        r
    }
}

/// What one argument reads as: a measure on its own, and the two measures on
/// the two sides of its first cross.
#[derive(Clone, Copy, PartialEq, Eq, Structural, Debug)]
pub struct Reading {
    pub measure: Option<Scalar>,
    pub width: Option<Scalar>,
    pub height: Option<Scalar>,
}

/// The options that take a value.
#[derive(Clone, Copy, PartialEq, Eq, Structural, Debug)]
pub enum Flag {
    Sheet,
    Sheets,
    Qty,
    Margin,
    Spacing,
    Kerf,
    Rotations,
    Generations,
    Population,
    Runs,
    Seed,
    Tolerance,
    Placement,
    SvgUnit,
    Out,
}

/// How an option is spelled.
pub open spec fn flag_name(flag: Flag) -> Seq<char> {
    match flag {
        Flag::Sheet => "--sheet"@,
        Flag::Sheets => "--sheets"@,
        Flag::Qty => "--qty"@,
        Flag::Margin => "--margin"@,
        Flag::Spacing => "--spacing"@,
        Flag::Kerf => "--kerf"@,
        Flag::Rotations => "--rotations"@,
        Flag::Generations => "--generations"@,
        Flag::Population => "--population"@,
        Flag::Runs => "--runs"@,
        Flag::Seed => "--seed"@,
        Flag::Tolerance => "--tolerance"@,
        Flag::Placement => "--placement"@,
        Flag::SvgUnit => "--svg-unit"@,
        Flag::Out => "--out"@,
    }
}

/// The option that an argument spells.
pub open spec fn flag_of(arg: Seq<char>) -> Option<Flag> {
    if exists|flag: Flag| #[trigger] flag_name(flag) == arg {
        Some(choose|flag: Flag| #[trigger] flag_name(flag) == arg)
    } else {
        None
    }
}

/// No two options are spelled alike.
pub proof fn law_options_are_told_apart(a: Flag, b: Flag)
    ensures
        flag_name(a) == flag_name(b) ==> a == b,
        flag_of(flag_name(a)) == Some(a),
{
    lemma_names_differ(a, b);
    let found = choose|flag: Flag| #[trigger] flag_name(flag) == flag_name(a);
    lemma_names_differ(found, a);
}

proof fn lemma_names_differ(a: Flag, b: Flag)
    ensures
        flag_name(a) == flag_name(b) ==> a == b,
{
    reveal_strlit("--sheet");
    reveal_strlit("--sheets");
    reveal_strlit("--qty");
    reveal_strlit("--margin");
    reveal_strlit("--spacing");
    reveal_strlit("--kerf");
    reveal_strlit("--rotations");
    reveal_strlit("--generations");
    reveal_strlit("--population");
    reveal_strlit("--runs");
    reveal_strlit("--seed");
    reveal_strlit("--tolerance");
    reveal_strlit("--placement");
    reveal_strlit("--svg-unit");
    reveal_strlit("--out");
    let x = flag_name(a);
    let y = flag_name(b);
    if x == y {
        assert(x.len() == y.len());
        assert(x[2] == y[2]);
    }
}

fn read_flag(arg: &str) -> (r: Option<Flag>)
    ensures
        r == flag_of(arg@),
{
    let r = if same_text(arg, "--sheet") {
        Some(Flag::Sheet)
    } else if same_text(arg, "--sheets") {
        Some(Flag::Sheets)
    } else if same_text(arg, "--qty") {
        Some(Flag::Qty)
    } else if same_text(arg, "--margin") {
        Some(Flag::Margin)
    } else if same_text(arg, "--spacing") {
        Some(Flag::Spacing)
    } else if same_text(arg, "--kerf") {
        Some(Flag::Kerf)
    } else if same_text(arg, "--rotations") {
        Some(Flag::Rotations)
    } else if same_text(arg, "--generations") {
        Some(Flag::Generations)
    } else if same_text(arg, "--population") {
        Some(Flag::Population)
    } else if same_text(arg, "--runs") {
        Some(Flag::Runs)
    } else if same_text(arg, "--seed") {
        Some(Flag::Seed)
    } else if same_text(arg, "--tolerance") {
        Some(Flag::Tolerance)
    } else if same_text(arg, "--placement") {
        Some(Flag::Placement)
    } else if same_text(arg, "--svg-unit") {
        Some(Flag::SvgUnit)
    } else if same_text(arg, "--out") {
        Some(Flag::Out)
    } else {
        None
    };
    proof {
        match r {
            Some(flag) => {
                assert(flag_name(flag) == arg@);
                law_options_are_told_apart(flag, flag);
            },
            None => {
                assert forall|flag: Flag| #[trigger] flag_name(flag) != arg@ by {
                    match flag {
                        Flag::Sheet => {},
                        _ => {},
                    }
                }
            },
        }
    }
    r
}

/// The message for an argument that should have been a number.
pub open spec fn not_a_number(name: Seq<char>, raw: Seq<char>) -> Seq<char> {
    name + ": '"@ + raw + "' is not a number"@
}

fn not_a_number_text(name: &str, raw: &str) -> (r: String)
    ensures
        r@ == not_a_number(name@, raw@),
{
    let mut r = name.to_owned();
    r.append(": '");
    r.append(raw);
    r.append("' is not a number");
    r
}

/// Reads a whole number no greater than `limit`, for the option `name`.
pub fn number(raw: &str, name: &str, limit: u64) -> (r: Result<u64, String>)
    ensures
        match r {
            Ok(n) => whole(raw@, limit as nat) == Some(n as nat),
            Err(message) => {
                &&& whole(raw@, limit as nat) is None
                &&& message@ == not_a_number(name@, raw@)
            },
        },
{
    match read_whole(raw, limit) {
        Some(n) => Ok(n),
        None => Err(not_a_number_text(name, raw)),
    }
}

/// Takes a measure as it was read, for the option `name`.
pub fn measure(raw: &str, read: Option<Scalar>, name: &str) -> (r: Result<Scalar, String>)
    ensures
        match r {
            Ok(value) => read == Some(value),
            Err(message) => read is None && message@ == not_a_number(name@, raw@),
        },
{
    match read {
        Some(value) => Ok(value),
        None => Err(not_a_number_text(name, raw)),
    }
}

/// Where the first cross of a text stands, or its end.
pub open spec fn first_cross(text: Seq<char>, at: int) -> int
    decreases text.len() - at,
{
    if 0 <= at < text.len() && text[at] != 'x' && text[at] != 'X' {
        first_cross(text, at + 1)
    } else {
        at
    }
}

/// The two sides of the first cross of a size, if it has one.
pub open spec fn size_sides(raw: Seq<char>) -> Option<(Seq<char>, Seq<char>)> {
    let at = first_cross(raw, 0);
    if at < raw.len() {
        Some((raw.subrange(0, at), raw.subrange(at + 1, raw.len() as int)))
    } else {
        None
    }
}

/// The two sides of the first cross of a size, if it has one.
pub fn split_size(raw: &str) -> (r: Option<(&str, &str)>)
    ensures
        match r {
            Some(sides) => size_sides(raw@) == Some((sides.0@, sides.1@)),
            None => size_sides(raw@) is None,
        },
{
    let chars = chars_of(raw);
    let mut at: usize = 0;
    while at < chars.len() && chars[at] != 'x' && chars[at] != 'X'
        invariant
            at <= chars@.len(),
            chars@ == raw@,
            first_cross(raw@, 0) == first_cross(raw@, at as int),
        decreases chars.len() - at,
    {
        at += 1;
    }
    if at == chars.len() {
        return None;
    }
    Some((raw.substring_char(0, at), raw.substring_char(at + 1, chars.len())))
}

/// Reads a stock size such as `2440x1220`: two measures with a cross between.
pub open spec fn size_read(raw: Seq<char>, reading: Reading) -> Result<
    (Scalar, Scalar),
    Seq<char>,
> {
    match size_sides(raw) {
        None => Err("--sheet: expected WxH, got '"@ + raw + "'"@),
        Some(sides) => match reading.width {
            None => Err(not_a_number("--sheet"@, sides.0)),
            Some(width) => match reading.height {
                None => Err(not_a_number("--sheet"@, sides.1)),
                Some(height) => Ok((width, height)),
            },
        },
    }
}

/// Reads a stock size, given what its two sides read as.
pub fn parse_size(raw: &str, reading: Reading) -> (r: Result<(Scalar, Scalar), String>)
    ensures
        match r {
            Ok(size) => size_read(raw@, reading) == Ok::<_, Seq<char>>(size),
            Err(message) => size_read(raw@, reading) == Err::<(Scalar, Scalar), _>(message@),
        },
{
    match split_size(raw) {
        None => {
            let mut message = "--sheet: expected WxH, got '".to_owned();
            message.append(raw);
            message.append("'");
            Err(message)
        },
        Some((w, h)) => {
            let width = measure(w, reading.width, "--sheet")?;
            let height = measure(h, reading.height, "--sheet")?;
            Ok((width, height))
        },
    }
}

/// A placement's name as it is compared: in lower case, without dashes and
/// underscores.
pub open spec fn plain_name(raw: Seq<char>) -> Seq<char> {
    lowered(raw).filter(|c: char| c != '-' && c != '_')
}

/// The placement that a plain name stands for.
pub open spec fn placement_named(plain: Seq<char>) -> Option<PlacementTypeDto> {
    if plain == "gravity"@ {
        Some(PlacementTypeDto::Gravity)
    } else if plain == "box"@ {
        Some(PlacementTypeDto::Box)
    } else if plain == "convexhull"@ {
        Some(PlacementTypeDto::ConvexHull)
    } else if plain == "tightfit"@ {
        Some(PlacementTypeDto::TightFit)
    } else if plain == "gravitytightfit"@ {
        Some(PlacementTypeDto::GravityTightFit)
    } else if plain == "gravitycorrective"@ {
        Some(PlacementTypeDto::GravityCorrective)
    } else {
        None
    }
}

fn plain_text(raw: &str) -> (r: String)
    ensures
        r@ == plain_name(raw@),
{
    let low = to_lowered(raw);
    let text = low.as_str();
    let chars = chars_of(text);
    let ghost keep = |c: char| c != '-' && c != '_';
    let mut r = String::new();
    let mut i: usize = 0;
    proof {
        reveal(Seq::filter);
        assert(chars@.subrange(0, 0) =~= Seq::<char>::empty());
    }
    while i < chars.len()
        invariant
            i <= chars@.len(),
            chars@ == text@,
            keep == (|c: char| c != '-' && c != '_'),
            r@ == chars@.subrange(0, i as int).filter(keep),
        decreases chars.len() - i,
    {
        proof {
            reveal(Seq::filter);
            assert(chars@.subrange(0, i + 1).drop_last() =~= chars@.subrange(0, i as int));
        }
        if chars[i] != '-' && chars[i] != '_' {
            let ghost before = r@;
            r.append(text.substring_char(i, i + 1));
            assert(r@ =~= before.push(chars@[i as int]));
        }
        i += 1;
    }
    assert(chars@.subrange(0, chars@.len() as int) =~= chars@);
    r
}

/// Reads a placement's name; case, dashes and underscores do not matter.
pub fn placement_type(raw: &str) -> (r: Result<PlacementTypeDto, String>)
    ensures
        match r {
            Ok(kind) => placement_named(plain_name(raw@)) == Some(kind),
            Err(message) => {
                &&& placement_named(plain_name(raw@)) is None
                &&& message@ == "--placement: unknown type '"@ + plain_name(raw@) + "'"@
            },
        },
{
    let plain = plain_text(raw);
    let name = plain.as_str();
    if same_text(name, "gravity") {
        Ok(PlacementTypeDto::Gravity)
    } else if same_text(name, "box") {
        Ok(PlacementTypeDto::Box)
    } else if same_text(name, "convexhull") {
        Ok(PlacementTypeDto::ConvexHull)
    } else if same_text(name, "tightfit") {
        Ok(PlacementTypeDto::TightFit)
    } else if same_text(name, "gravitytightfit") {
        Ok(PlacementTypeDto::GravityTightFit)
    } else if same_text(name, "gravitycorrective") {
        Ok(PlacementTypeDto::GravityCorrective)
    } else {
        let mut message = "--placement: unknown type '".to_owned();
        message.append(name);
        message.append("'");
        Err(message)
    }
}

/// The options after one that takes a value, or what is wrong with the value.
pub open spec fn valued(
    opts: OptionsModel,
    flag: Flag,
    raw: Seq<char>,
    reading: Reading,
) -> Result<OptionsModel, Seq<char>> {
    match flag {
        Flag::Sheet => match size_read(raw, reading) {
            Ok(size) => Ok(OptionsModel { sheet: size, ..opts }),
            Err(message) => Err(message),
        },
        Flag::Sheets => match whole(raw, usize::MAX as nat) {
            Some(n) => Ok(OptionsModel { sheets: n as usize, ..opts }),
            None => Err(not_a_number(flag_name(flag), raw)),
        },
        Flag::Qty => match whole(raw, usize::MAX as nat) {
            Some(n) => Ok(OptionsModel { qty: n as usize, ..opts }),
            None => Err(not_a_number(flag_name(flag), raw)),
        },
        Flag::Margin => match reading.measure {
            Some(value) => Ok(
                OptionsModel { config: NestConfigDto { margin: value, ..opts.config }, ..opts },
            ),
            None => Err(not_a_number(flag_name(flag), raw)),
        },
        Flag::Spacing => match reading.measure {
            Some(value) => Ok(
                OptionsModel { config: NestConfigDto { spacing: value, ..opts.config }, ..opts },
            ),
            None => Err(not_a_number(flag_name(flag), raw)),
        },
        Flag::Kerf => match reading.measure {
            Some(value) => Ok(
                OptionsModel { config: NestConfigDto { kerf: value, ..opts.config }, ..opts },
            ),
            None => Err(not_a_number(flag_name(flag), raw)),
        },
        Flag::Rotations => match whole(raw, u32::MAX as nat) {
            Some(n) => Ok(OptionsModel { config: NestConfigDto { rotations: n as u32, ..opts.config }, ..opts }),
            None => Err(not_a_number(flag_name(flag), raw)),
        },
        Flag::Generations => match whole(raw, usize::MAX as nat) {
            Some(n) => Ok(OptionsModel { config: NestConfigDto { generations: n as usize, ..opts.config }, ..opts }),
            None => Err(not_a_number(flag_name(flag), raw)),
        },
        Flag::Population => match whole(raw, usize::MAX as nat) {
            Some(n) => Ok(OptionsModel { config: NestConfigDto { population_size: n as usize, ..opts.config }, ..opts }),
            None => Err(not_a_number(flag_name(flag), raw)),
        },
        Flag::Runs => match whole(raw, usize::MAX as nat) {
            Some(n) => Ok(OptionsModel { config: NestConfigDto { runs: n as usize, ..opts.config }, ..opts }),
            None => Err(not_a_number(flag_name(flag), raw)),
        },
        Flag::Seed => match whole(raw, u64::MAX as nat) {
            Some(n) => Ok(OptionsModel { config: NestConfigDto { seed: n as u64, ..opts.config }, ..opts }),
            None => Err(not_a_number(flag_name(flag), raw)),
        },
        Flag::Tolerance => match reading.measure {
            Some(value) => Ok(
                OptionsModel { config: NestConfigDto { curve_tolerance: value, ..opts.config }, ..opts },
            ),
            None => Err(not_a_number(flag_name(flag), raw)),
        },
        Flag::Placement => match placement_named(plain_name(raw)) {
            Some(kind) => Ok(
                OptionsModel {
                    config: NestConfigDto { placement_type: kind, ..opts.config },
                    ..opts
                },
            ),
            None => Err("--placement: unknown type '"@ + plain_name(raw) + "'"@),
        },
        Flag::SvgUnit => Ok(OptionsModel { svg_unit: Some(raw), ..opts }),
        Flag::Out => Ok(OptionsModel { out: Some(raw), ..opts }),
    }
}

impl Options {
    /// Takes in an option with its value.
    fn take(&mut self, flag: Flag, raw: &str, reading: Reading) -> (r: Result<(), String>)
        ensures
            match r {
                Ok(_) => valued(old(self)@, flag, raw@, reading) == Ok::<_, Seq<char>>(
                    final(self)@,
                ),
                Err(message) => valued(old(self)@, flag, raw@, reading) == Err::<OptionsModel, _>(
                    message@,
                ),
            },
    {
        match flag {
            Flag::Sheet => {
                self.sheet = parse_size(raw, reading)?;
            },
            Flag::Sheets => {
                self.sheets = number(raw, "--sheets", usize::MAX as u64)? as usize;
            },
            Flag::Qty => {
                self.qty = number(raw, "--qty", usize::MAX as u64)? as usize;
            },
            Flag::Margin => {
                self.config.margin = measure(raw, reading.measure, "--margin")?;
            },
            Flag::Spacing => {
                self.config.spacing = measure(raw, reading.measure, "--spacing")?;
            },
            Flag::Kerf => {
                self.config.kerf = measure(raw, reading.measure, "--kerf")?;
            },
            Flag::Rotations => {
                self.config.rotations = number(raw, "--rotations", u32::MAX as u64)? as u32;
            },
            Flag::Generations => {
                self.config.generations = number(raw, "--generations", usize::MAX as u64)? as usize;
            },
            Flag::Population => {
                self.config.population_size = number(raw, "--population", usize::MAX as u64)? as usize;
            },
            Flag::Runs => {
                self.config.runs = number(raw, "--runs", usize::MAX as u64)? as usize;
            },
            Flag::Seed => {
                self.config.seed = number(raw, "--seed", u64::MAX)?;
            },
            Flag::Tolerance => {
                self.config.curve_tolerance = measure(raw, reading.measure, "--tolerance")?;
            },
            Flag::Placement => {
                self.config.placement_type = placement_type(raw)?;
            },
            Flag::SvgUnit => {
                self.svg_unit = Some(raw.to_owned());
            },
            Flag::Out => {
                self.out = Some(raw.to_owned());
            },
        }
        Ok(())
    }
}

/// What the arguments from an index on make of the options gathered before it:
/// the options of the whole line, nothing where help is asked for, or the first
/// mistake.
///
/// A file named after a `--qty` takes that quantity. One named before any takes
/// whatever the flag settles on in the end.
pub open spec fn parsed(
    args: Seq<Seq<char>>,
    readings: Seq<Reading>,
    at: int,
    opts: OptionsModel,
    qty_seen: bool,
) -> Result<Option<OptionsModel>, Seq<char>>
    decreases args.len() - at,
{
    if at < 0 || at >= args.len() {
        if opts.files.len() == 0 {
            Err("no input files\n\n"@ + USAGE@)
        } else {
            Ok(Some(opts))
        }
    } else {
        let arg = args[at];
        if arg == "-h"@ || arg == "--help"@ {
            Ok(None)
        } else if arg == "--unplaced"@ {
            parsed(
                args,
                readings,
                at + 1,
                OptionsModel { include_unplaced: true, ..opts },
                qty_seen,
            )
        } else if arg == "--json"@ {
            parsed(args, readings, at + 1, OptionsModel { json: true, ..opts }, qty_seen)
        } else {
            match flag_of(arg) {
                Some(flag) => {
                    if at + 1 >= args.len() {
                        Err(flag_name(flag) + " needs a value"@)
                    } else {
                        match valued(opts, flag, args[at + 1], readings[at + 1]) {
                            Ok(next) => parsed(
                                args,
                                readings,
                                at + 2,
                                next,
                                qty_seen || flag == Flag::Qty,
                            ),
                            Err(message) => Err(message),
                        }
                    }
                },
                None => {
                    if arg.len() > 0 && arg[0] == '-' {
                        Err("unknown option '"@ + arg + "'\n\n"@ + USAGE@)
                    } else {
                        let quantity = if qty_seen {
                            Some(opts.qty)
                        } else {
                            None
                        };
                        parsed(
                            args,
                            readings,
                            at + 1,
                            OptionsModel { files: opts.files.push((arg, quantity)), ..opts },
                            qty_seen,
                        )
                    }
                },
            }
        }
    }
}

/// Reads the arguments that follow the program's name, given what each of them
/// reads as. Nothing means that help was asked for.
pub fn parse_args(args: &Vec<String>, readings: &Vec<Reading>) -> (r: Result<
    Option<Options>,
    String,
>)
    requires
        args@.len() == readings@.len(),
    ensures
        match r {
            Ok(Some(opts)) => parsed(texts_view(args@), readings@, 0, default_options(), false)
                == Ok::<_, Seq<char>>(Some(opts@)),
            Ok(None) => parsed(texts_view(args@), readings@, 0, default_options(), false) == Ok::<
                Option<OptionsModel>,
                Seq<char>,
            >(None),
            Err(message) => parsed(texts_view(args@), readings@, 0, default_options(), false)
                == Err::<Option<OptionsModel>, _>(message@),
        },
{
    let ghost all = texts_view(args@);
    let ghost outcome = parsed(all, readings@, 0, default_options(), false);
    let mut opts = Options::default();
    let mut qty_seen = false;
    let mut at: usize = 0;
    while at < args.len()
        invariant
            at <= args@.len(),
            args@.len() == readings@.len(),
            all == texts_view(args@),
            outcome == parsed(all, readings@, at as int, opts@, qty_seen),
            outcome == parsed(all, readings@, 0, default_options(), false),
        decreases args.len() - at,
    {
        let arg = args[at].as_str();
        assert(all[at as int] == arg@);
        if same_text(arg, "-h") || same_text(arg, "--help") {
            return Ok(None);
        }
        if same_text(arg, "--unplaced") {
            opts.include_unplaced = true;
            at += 1;
            continue;
        }
        if same_text(arg, "--json") {
            opts.json = true;
            at += 1;
            continue;
        }
        match read_flag(arg) {
            Some(flag) => {
                if args.len() - at < 2 {
                    let mut message = arg.to_owned();
                    message.append(" needs a value");
                    return Err(message);
                }
                opts.take(flag, args[at + 1].as_str(), readings[at + 1])?;
                qty_seen = qty_seen || flag == Flag::Qty;
                at += 2;
            },
            None => {
                if arg.unicode_len() > 0 && arg.get_char(0) == '-' {
                    let mut message = "unknown option '".to_owned();
                    message.append(arg);
                    message.append("'\n\n");
                    message.append(USAGE);
                    return Err(message);
                }
                let quantity = if qty_seen {
                    Some(opts.qty)
                } else {
                    None
                };
                let ghost before = opts@.files;
                opts.files.push((arg.to_owned(), quantity));
                assert(opts@.files =~= before.push((arg@, quantity)));
                at += 1;
            },
        }
    }
    if opts.files.len() == 0 {
        let mut message = "no input files\n\n".to_owned();
        message.append(USAGE);
        return Err(message);
    }
    Ok(Some(opts))
}

/// Files keep the quantity they were named with, whatever follows them; and
/// once a quantity was given, every further file has one.
pub proof fn law_named_files_keep_their_quantity(
    args: Seq<Seq<char>>,
    readings: Seq<Reading>,
    at: int,
    opts: OptionsModel,
    qty_seen: bool,
)
    ensures
        match parsed(args, readings, at, opts, qty_seen) {
            Ok(Some(last)) => {
                &&& opts.files.len() <= last.files.len()
                &&& last.files.subrange(0, opts.files.len() as int) == opts.files
                &&& qty_seen ==> forall|i: int|
                    opts.files.len() <= i < last.files.len() ==> (
                    #[trigger] last.files[i]).1 is Some
            },
            _ => true,
        },
    decreases args.len() - at,
{
    if at < 0 || at >= args.len() {
        assert(opts.files.subrange(0, opts.files.len() as int) =~= opts.files);
    } else {
        let arg = args[at];
        match flag_of(arg) {
            Some(flag) => {
                if arg == "--unplaced"@ {
                    law_named_files_keep_their_quantity(
                        args,
                        readings,
                        at + 1,
                        OptionsModel { include_unplaced: true, ..opts },
                        qty_seen,
                    );
                } else if arg == "--json"@ {
                    law_named_files_keep_their_quantity(
                        args,
                        readings,
                        at + 1,
                        OptionsModel { json: true, ..opts },
                        qty_seen,
                    );
                } else if at + 1 < args.len() {
                    match valued(opts, flag, args[at + 1], readings[at + 1]) {
                        Ok(next) => law_named_files_keep_their_quantity(
                            args,
                            readings,
                            at + 2,
                            next,
                            qty_seen || flag == Flag::Qty,
                        ),
                        Err(_) => {},
                    }
                }
            },
            None => {
                law_named_files_keep_their_quantity(
                    args,
                    readings,
                    at + 1,
                    OptionsModel { include_unplaced: true, ..opts },
                    qty_seen,
                );
                law_named_files_keep_their_quantity(
                    args,
                    readings,
                    at + 1,
                    OptionsModel { json: true, ..opts },
                    qty_seen,
                );
                let quantity = if qty_seen {
                    Some(opts.qty)
                } else {
                    None
                };
                let named = OptionsModel { files: opts.files.push((arg, quantity)), ..opts };
                law_named_files_keep_their_quantity(args, readings, at + 1, named, qty_seen);
                match parsed(args, readings, at + 1, named, qty_seen) {
                    Ok(Some(last)) => {
                        let n = opts.files.len() as int;
                        assert(last.files.subrange(0, n + 1) == named.files);
                        assert(last.files.subrange(0, n) =~= opts.files) by {
                            assert forall|i: int| 0 <= i < n implies last.files[i]
                                == opts.files[i] by {
                                assert(last.files.subrange(0, n + 1)[i] == named.files[i]);
                            }
                        }
                        assert(last.files[n] == last.files.subrange(0, n + 1)[n]);
                    },
                    _ => {},
                }
            },
        }
    }
}

// --- what a command line promises -----------------------------------------

/// Whether an argument is an option without a value.
pub open spec fn is_switch(arg: Seq<char>) -> bool {
    arg == "-h"@ || arg == "--help"@ || arg == "--unplaced"@ || arg == "--json"@
}

proof fn lemma_option_names()
    ensures
        flag_of("--sheet"@) == Some(Flag::Sheet),
        !is_switch("--sheet"@),
        flag_of("--sheets"@) == Some(Flag::Sheets),
        !is_switch("--sheets"@),
        flag_of("--qty"@) == Some(Flag::Qty),
        !is_switch("--qty"@),
        flag_of("--margin"@) == Some(Flag::Margin),
        !is_switch("--margin"@),
        flag_of("--spacing"@) == Some(Flag::Spacing),
        !is_switch("--spacing"@),
        flag_of("--kerf"@) == Some(Flag::Kerf),
        !is_switch("--kerf"@),
        flag_of("--rotations"@) == Some(Flag::Rotations),
        !is_switch("--rotations"@),
        flag_of("--generations"@) == Some(Flag::Generations),
        !is_switch("--generations"@),
        flag_of("--population"@) == Some(Flag::Population),
        !is_switch("--population"@),
        flag_of("--runs"@) == Some(Flag::Runs),
        !is_switch("--runs"@),
        flag_of("--seed"@) == Some(Flag::Seed),
        !is_switch("--seed"@),
        flag_of("--tolerance"@) == Some(Flag::Tolerance),
        !is_switch("--tolerance"@),
        flag_of("--placement"@) == Some(Flag::Placement),
        !is_switch("--placement"@),
        flag_of("--svg-unit"@) == Some(Flag::SvgUnit),
        !is_switch("--svg-unit"@),
        flag_of("--out"@) == Some(Flag::Out),
        !is_switch("--out"@),
        !("--json"@ == "-h"@),
        !("--json"@ == "--help"@),
        !("--json"@ == "--unplaced"@),
        !("--unplaced"@ == "-h"@),
        !("--unplaced"@ == "--help"@),
{
    reveal_strlit("--sheet");
    reveal_strlit("--sheets");
    reveal_strlit("--qty");
    reveal_strlit("--margin");
    reveal_strlit("--spacing");
    reveal_strlit("--kerf");
    reveal_strlit("--rotations");
    reveal_strlit("--generations");
    reveal_strlit("--population");
    reveal_strlit("--runs");
    reveal_strlit("--seed");
    reveal_strlit("--tolerance");
    reveal_strlit("--placement");
    reveal_strlit("--svg-unit");
    reveal_strlit("--out");
    reveal_strlit("-h");
    reveal_strlit("--help");
    reveal_strlit("--unplaced");
    reveal_strlit("--json");
    law_options_are_told_apart(Flag::Sheet, Flag::Sheet);
    law_options_are_told_apart(Flag::Sheets, Flag::Sheets);
    law_options_are_told_apart(Flag::Qty, Flag::Qty);
    law_options_are_told_apart(Flag::Margin, Flag::Margin);
    law_options_are_told_apart(Flag::Spacing, Flag::Spacing);
    law_options_are_told_apart(Flag::Kerf, Flag::Kerf);
    law_options_are_told_apart(Flag::Rotations, Flag::Rotations);
    law_options_are_told_apart(Flag::Generations, Flag::Generations);
    law_options_are_told_apart(Flag::Population, Flag::Population);
    law_options_are_told_apart(Flag::Runs, Flag::Runs);
    law_options_are_told_apart(Flag::Seed, Flag::Seed);
    law_options_are_told_apart(Flag::Tolerance, Flag::Tolerance);
    law_options_are_told_apart(Flag::Placement, Flag::Placement);
    law_options_are_told_apart(Flag::SvgUnit, Flag::SvgUnit);
    law_options_are_told_apart(Flag::Out, Flag::Out);
    assert("-h"@.len() == 2);
    assert("--help"@.len() == 6 && "--unplaced"@.len() == 10 && "--json"@.len() == 6);
    assert("--help"@[2] == 'h' && "--unplaced"@[2] == 'u' && "--json"@[2] == 'j');
    assert("--sheet"@.len() == 7 && "--sheet"@[2] == 's');
    assert(!is_switch("--sheet"@));
    assert("--sheets"@.len() == 8 && "--sheets"@[2] == 's');
    assert(!is_switch("--sheets"@));
    assert("--qty"@.len() == 5 && "--qty"@[2] == 'q');
    assert(!is_switch("--qty"@));
    assert("--margin"@.len() == 8 && "--margin"@[2] == 'm');
    assert(!is_switch("--margin"@));
    assert("--spacing"@.len() == 9 && "--spacing"@[2] == 's');
    assert(!is_switch("--spacing"@));
    assert("--kerf"@.len() == 6 && "--kerf"@[2] == 'k');
    assert(!is_switch("--kerf"@));
    assert("--rotations"@.len() == 11 && "--rotations"@[2] == 'r');
    assert(!is_switch("--rotations"@));
    assert("--generations"@.len() == 13 && "--generations"@[2] == 'g');
    assert(!is_switch("--generations"@));
    assert("--population"@.len() == 12 && "--population"@[2] == 'p');
    assert(!is_switch("--population"@));
    assert("--runs"@.len() == 6 && "--runs"@[2] == 'r');
    assert(!is_switch("--runs"@));
    assert("--seed"@.len() == 6 && "--seed"@[2] == 's');
    assert(!is_switch("--seed"@));
    assert("--tolerance"@.len() == 11 && "--tolerance"@[2] == 't');
    assert(!is_switch("--tolerance"@));
    assert("--placement"@.len() == 11 && "--placement"@[2] == 'p');
    assert(!is_switch("--placement"@));
    assert("--svg-unit"@.len() == 10 && "--svg-unit"@[2] == 's');
    assert(!is_switch("--svg-unit"@));
    assert("--out"@.len() == 5 && "--out"@[2] == 'o');
    assert(!is_switch("--out"@));
}

proof fn lemma_options_begin_with_a_dash(flag: Flag)
    ensures
        flag_name(flag).len() > 0,
        flag_name(flag)[0] == '-',
{
    reveal_strlit("--sheet");
    reveal_strlit("--sheets");
    reveal_strlit("--qty");
    reveal_strlit("--margin");
    reveal_strlit("--spacing");
    reveal_strlit("--kerf");
    reveal_strlit("--rotations");
    reveal_strlit("--generations");
    reveal_strlit("--population");
    reveal_strlit("--runs");
    reveal_strlit("--seed");
    reveal_strlit("--tolerance");
    reveal_strlit("--placement");
    reveal_strlit("--svg-unit");
    reveal_strlit("--out");
}

proof fn lemma_a_file_is_no_option(arg: Seq<char>)
    requires
        arg.len() == 0 || arg[0] != '-',
    ensures
        flag_of(arg) is None,
        !is_switch(arg),
{
    reveal_strlit("-h");
    reveal_strlit("--help");
    reveal_strlit("--unplaced");
    reveal_strlit("--json");
    assert("-h"@[0] == '-' && "--help"@[0] == '-' && "--unplaced"@[0] == '-' && "--json"@[0]
        == '-');
    assert forall|flag: Flag| #[trigger] flag_name(flag) != arg by {
        lemma_options_begin_with_a_dash(flag);
    }
}

/// A command line that is understood goes on as it would with what is added to
/// it, from where it ended.
proof fn lemma_goes_on(
    args: Seq<Seq<char>>,
    readings: Seq<Reading>,
    more: Seq<Seq<char>>,
    more_readings: Seq<Reading>,
    at: int,
    opts: OptionsModel,
    seen: bool,
    last: OptionsModel,
) -> (seen_after: bool)
    requires
        args.len() == readings.len(),
        args.len() <= more.len(),
        more.len() == more_readings.len(),
        forall|i: int| 0 <= i < args.len() ==> args[i] == more[i],
        forall|i: int| 0 <= i < args.len() ==> readings[i] == more_readings[i],
        0 <= at <= args.len(),
        parsed(args, readings, at, opts, seen) == Ok::<_, Seq<char>>(Some(last)),
    ensures
        parsed(more, more_readings, at, opts, seen) == parsed(
            more,
            more_readings,
            args.len() as int,
            last,
            seen_after,
        ),
        at == args.len() ==> seen_after == seen,
    decreases args.len() - at,
{
    if at == args.len() {
        seen
    } else {
        let arg = args[at];
        assert(arg == more[at]);
        if arg == "--unplaced"@ {
            lemma_goes_on(
                args,
                readings,
                more,
                more_readings,
                at + 1,
                OptionsModel { include_unplaced: true, ..opts },
                seen,
                last,
            )
        } else if arg == "--json"@ {
            lemma_goes_on(
                args,
                readings,
                more,
                more_readings,
                at + 1,
                OptionsModel { json: true, ..opts },
                seen,
                last,
            )
        } else {
            match flag_of(arg) {
                Some(flag) => {
                    assert(args[at + 1] == more[at + 1]);
                    assert(readings[at + 1] == more_readings[at + 1]);
                    let next = valued(opts, flag, args[at + 1], readings[at + 1])->Ok_0;
                    lemma_goes_on(
                        args,
                        readings,
                        more,
                        more_readings,
                        at + 2,
                        next,
                        seen || flag == Flag::Qty,
                        last,
                    )
                },
                None => {
                    let quantity = if seen {
                        Some(opts.qty)
                    } else {
                        None
                    };
                    lemma_goes_on(
                        args,
                        readings,
                        more,
                        more_readings,
                        at + 1,
                        OptionsModel { files: opts.files.push((arg, quantity)), ..opts },
                        seen,
                        last,
                    )
                },
            }
        }
    }
}

/// Whether two sets of options name the same files, each with its quantity.
pub open spec fn same_files(a: Options, b: Options) -> bool {
    &&& a.files@.len() == b.files@.len()
    &&& forall|i: int|
        0 <= i < a.files@.len() ==> (#[trigger] a.files@[i]).0@ == b.files@[i].0@ && a.files@[i].1
            == b.files@[i].1
}

/// Whether two sets of options write to the same place and read by one unit.
pub open spec fn same_places(a: Options, b: Options) -> bool {
    &&& a.out is Some == b.out is Some
    &&& a.out is Some ==> a.out->Some_0@ == b.out->Some_0@
    &&& a.svg_unit is Some == b.svg_unit is Some
    &&& a.svg_unit is Some ==> a.svg_unit->Some_0@ == b.svg_unit->Some_0@
}

/// Whether two sets of options are the same but for the settings of the job.
pub open spec fn same_beside_config(a: Options, b: Options) -> bool {
    &&& same_files(a, b)
    &&& same_places(a, b)
    &&& a.sheet == b.sheet
    &&& a.sheets == b.sheets
    &&& a.qty == b.qty
    &&& a.include_unplaced == b.include_unplaced
    &&& a.json == b.json
}

proof fn lemma_same_files(a: Options, b: Options)
    requires
        a@.files == b@.files,
    ensures
        same_files(a, b),
{
    assert(a@.files.len() == a.files@.len() && b@.files.len() == b.files@.len());
    assert forall|i: int| 0 <= i < a.files@.len() implies (#[trigger] a.files@[i]).0@
        == b.files@[i].0@ && a.files@[i].1 == b.files@[i].1 by {
        assert(a@.files[i] == (a.files@[i].0@, a.files@[i].1));
        assert(b@.files[i] == (b.files@[i].0@, b.files@[i].1));
    }
}

proof fn lemma_two_more(
    args: &Vec<String>,
    readings: &Vec<Reading>,
    more: &Vec<String>,
    more_readings: &Vec<Reading>,
    name: String,
    raw: String,
    of_name: Reading,
    reading: Reading,
    opts: Options,
    flag: Flag,
)
    requires
        args@.len() == readings@.len(),
        more@ == args@.push(name).push(raw),
        more_readings@ == readings@.push(of_name).push(reading),
        flag_of(name@) == Some(flag),
        !is_switch(name@),
        parsed(texts_view(args@), readings@, 0, default_options(), false) == Ok::<_, Seq<char>>(
            Some(opts@),
        ),
    ensures
        parsed(texts_view(more@), more_readings@, 0, default_options(), false) == match valued(
            opts@,
            flag,
            raw@,
            reading,
        ) {
            Ok(next) => if next.files.len() == 0 {
                Err("no input files\n\n"@ + USAGE@)
            } else {
                Ok(Some(next))
            },
            Err(message) => Err(message),
        },
{
    let a = texts_view(args@);
    let m = texts_view(more@);
    let n = args@.len() as int;
    assert forall|i: int| 0 <= i < n implies a[i] == m[i] by {
        assert(more@[i] == args@[i]);
    }
    let seen = lemma_goes_on(
        a,
        readings@,
        m,
        more_readings@,
        0,
        default_options(),
        false,
        opts@,
    );
    assert(m[n] == name@ && m[n + 1] == raw@);
    assert(more_readings@[n + 1] == reading);
    assert(m.len() == n + 2);
    reveal_with_fuel(parsed, 2);
}

proof fn lemma_read_options_name_a_file(
    args: Seq<Seq<char>>,
    readings: Seq<Reading>,
    at: int,
    opts: OptionsModel,
    seen: bool,
)
    ensures
        parsed(args, readings, at, opts, seen) matches Ok(Some(last)) ==> last.files.len() > 0,
    decreases args.len() - at,
{
    if 0 <= at < args.len() {
        let arg = args[at];
        lemma_read_options_name_a_file(
            args,
            readings,
            at + 1,
            OptionsModel { include_unplaced: true, ..opts },
            seen,
        );
        lemma_read_options_name_a_file(
            args,
            readings,
            at + 1,
            OptionsModel { json: true, ..opts },
            seen,
        );
        match flag_of(arg) {
            Some(flag) => {
                if at + 1 < args.len() {
                    match valued(opts, flag, args[at + 1], readings[at + 1]) {
                        Ok(next) => lemma_read_options_name_a_file(
                            args,
                            readings,
                            at + 2,
                            next,
                            seen || flag == Flag::Qty,
                        ),
                        Err(_) => {},
                    }
                }
            },
            None => {
                let quantity = if seen {
                    Some(opts.qty)
                } else {
                    None
                };
                lemma_read_options_name_a_file(
                    args,
                    readings,
                    at + 1,
                    OptionsModel { files: opts.files.push((arg, quantity)), ..opts },
                    seen,
                );
            },
        }
    }
}

/// An option for the job that is added to a command line changes the setting of
/// its name to its value, and no other; a value that is no number is refused.
pub proof fn law_a_further_setting_changes_only_itself(
    args: &Vec<String>,
    readings: &Vec<Reading>,
    more: &Vec<String>,
    more_readings: &Vec<Reading>,
    name: String,
    raw: String,
    of_name: Reading,
    reading: Reading,
    opts: Options,
    r: Result<Option<Options>, String>,
)
    requires
        args@.len() == readings@.len(),
        more@ == args@.push(name).push(raw),
        more_readings@ == readings@.push(of_name).push(reading),
        call_ensures(
            parse_args,
            (args, readings),
            Ok::<Option<Options>, String>(Some(opts)),
        ),
        call_ensures(parse_args, (more, more_readings), r),
    ensures
        name@ == "--margin"@ ==> {
            &&& r is Ok <==> reading.measure is Some
            &&& r matches Ok(Some(next)) ==> same_beside_config(next, opts) && next.config == (
            NestConfigDto { margin: reading.measure->Some_0, ..opts.config })
        },
        name@ == "--spacing"@ ==> {
            &&& r is Ok <==> reading.measure is Some
            &&& r matches Ok(Some(next)) ==> same_beside_config(next, opts) && next.config == (
            NestConfigDto { spacing: reading.measure->Some_0, ..opts.config })
        },
        name@ == "--kerf"@ ==> {
            &&& r is Ok <==> reading.measure is Some
            &&& r matches Ok(Some(next)) ==> same_beside_config(next, opts) && next.config == (
            NestConfigDto { kerf: reading.measure->Some_0, ..opts.config })
        },
        name@ == "--tolerance"@ ==> {
            &&& r is Ok <==> reading.measure is Some
            &&& r matches Ok(Some(next)) ==> same_beside_config(next, opts) && next.config == (
            NestConfigDto { curve_tolerance: reading.measure->Some_0, ..opts.config })
        },
        name@ == "--rotations"@ ==> {
            &&& r is Ok <==> whole(raw@, u32::MAX as nat) is Some
            &&& r matches Ok(Some(next)) ==> same_beside_config(next, opts) && next.config == (
            NestConfigDto { rotations: whole(raw@, u32::MAX as nat)->Some_0 as u32, ..opts.config })
        },
        name@ == "--generations"@ ==> {
            &&& r is Ok <==> whole(raw@, usize::MAX as nat) is Some
            &&& r matches Ok(Some(next)) ==> same_beside_config(next, opts) && next.config == (
            NestConfigDto { generations: whole(raw@, usize::MAX as nat)->Some_0 as usize, ..opts.config })
        },
        name@ == "--population"@ ==> {
            &&& r is Ok <==> whole(raw@, usize::MAX as nat) is Some
            &&& r matches Ok(Some(next)) ==> same_beside_config(next, opts) && next.config == (
            NestConfigDto { population_size: whole(raw@, usize::MAX as nat)->Some_0 as usize, ..opts.config })
        },
        name@ == "--runs"@ ==> {
            &&& r is Ok <==> whole(raw@, usize::MAX as nat) is Some
            &&& r matches Ok(Some(next)) ==> same_beside_config(next, opts) && next.config == (
            NestConfigDto { runs: whole(raw@, usize::MAX as nat)->Some_0 as usize, ..opts.config })
        },
        name@ == "--seed"@ ==> {
            &&& r is Ok <==> whole(raw@, u64::MAX as nat) is Some
            &&& r matches Ok(Some(next)) ==> same_beside_config(next, opts) && next.config == (
            NestConfigDto { seed: whole(raw@, u64::MAX as nat)->Some_0 as u64, ..opts.config })
        },
{
    lemma_option_names();
    lemma_read_options_name_a_file(
        texts_view(args@),
        readings@,
        0,
        default_options(),
        false,
    );
    if let Some(flag) = flag_of(name@) {
        if !is_switch(name@) {
            lemma_two_more(
                args,
                readings,
                more,
                more_readings,
                name,
                raw,
                of_name,
                reading,
                opts,
                flag,
            );
            if let Ok(Some(next)) = r {
                if next@.files == opts@.files {
                    lemma_same_files(next, opts);
                }
            }
        }
    }
}

/// An option about the stock, the quantity or the output that is added to a
/// command line changes what its name says, and nothing of the job.
pub proof fn law_a_further_choice_changes_only_itself(
    args: &Vec<String>,
    readings: &Vec<Reading>,
    more: &Vec<String>,
    more_readings: &Vec<Reading>,
    name: String,
    raw: String,
    of_name: Reading,
    reading: Reading,
    opts: Options,
    r: Result<Option<Options>, String>,
)
    requires
        args@.len() == readings@.len(),
        more@ == args@.push(name).push(raw),
        more_readings@ == readings@.push(of_name).push(reading),
        call_ensures(
            parse_args,
            (args, readings),
            Ok::<Option<Options>, String>(Some(opts)),
        ),
        call_ensures(parse_args, (more, more_readings), r),
    ensures
        name@ == "--sheets"@ || name@ == "--qty"@ ==> {
            &&& r is Ok <==> whole(raw@, usize::MAX as nat) is Some
            &&& r matches Ok(Some(next)) ==> {
                &&& next.config == opts.config
                &&& next.sheet == opts.sheet
                &&& same_files(next, opts)
                &&& same_places(next, opts)
                &&& next.json == opts.json
                &&& next.include_unplaced == opts.include_unplaced
                &&& name@ == "--sheets"@ ==> next.sheets == whole(
                    raw@,
                    usize::MAX as nat,
                )->Some_0 && next.qty == opts.qty
                &&& name@ == "--qty"@ ==> next.qty == whole(raw@, usize::MAX as nat)->Some_0
                    && next.sheets == opts.sheets
            }
        },
        name@ == "--out"@ || name@ == "--svg-unit"@ ==> {
            &&& r is Ok && r->Ok_0 is Some
            &&& r matches Ok(Some(next)) ==> {
                &&& next.config == opts.config
                &&& next.sheet == opts.sheet
                &&& next.sheets == opts.sheets
                &&& next.qty == opts.qty
                &&& next.json == opts.json
                &&& next.include_unplaced == opts.include_unplaced
                &&& same_files(next, opts)
                &&& name@ == "--out"@ ==> next.out is Some && next.out->Some_0@ == raw@
                &&& name@ == "--svg-unit"@ ==> next.svg_unit is Some && next.svg_unit->Some_0@
                    == raw@
            }
        },
        name@ == "--sheet"@ && reading.width is Some && reading.height is Some && (exists|i: int|
            0 <= i < raw@.len() && (#[trigger] raw@[i] == 'x' || raw@[i] == 'X')) ==> {
            &&& r is Ok && r->Ok_0 is Some
            &&& r matches Ok(Some(next)) ==> {
                &&& next.sheet.0 == reading.width->Some_0
                &&& next.sheet.1 == reading.height->Some_0
                &&& next.config == opts.config
                &&& next.sheets == opts.sheets
                &&& next.qty == opts.qty
                &&& same_files(next, opts)
            }
        },
{
    lemma_option_names();
    lemma_read_options_name_a_file(
        texts_view(args@),
        readings@,
        0,
        default_options(),
        false,
    );
    if exists|i: int| 0 <= i < raw@.len() && (#[trigger] raw@[i] == 'x' || raw@[i] == 'X') {
        let i = choose|i: int|
            0 <= i < raw@.len() && (#[trigger] raw@[i] == 'x' || raw@[i] == 'X');
        lemma_first_cross_is_first(raw@, 0, i);
    }
    if let Some(flag) = flag_of(name@) {
        if !is_switch(name@) {
            lemma_two_more(
                args,
                readings,
                more,
                more_readings,
                name,
                raw,
                of_name,
                reading,
                opts,
                flag,
            );
            if let Ok(Some(next)) = r {
                if next@.files == opts@.files {
                    lemma_same_files(next, opts);
                }
            }
        }
    }
}

proof fn lemma_first_cross_is_first(text: Seq<char>, at: int, i: int)
    requires
        0 <= at <= i < text.len(),
        text[i] == 'x' || text[i] == 'X',
    ensures
        at <= first_cross(text, at) <= i,
        text[first_cross(text, at)] == 'x' || text[first_cross(text, at)] == 'X',
        forall|k: int|
            at <= k < first_cross(text, at) ==> #[trigger] text[k] != 'x' && text[k] != 'X',
    decreases text.len() - at,
{
    if text[at] != 'x' && text[at] != 'X' {
        lemma_first_cross_is_first(text, at + 1, i);
    }
}

/// A size splits at its first cross, small or capital: what stands before it is
/// the one side, what stands after it the other.
pub proof fn law_a_size_splits_at_its_first_cross(
    raw: &str,
    r: Option<(&str, &str)>,
    w: Seq<char>,
    cross: char,
    h: Seq<char>,
)
    requires
        call_ensures(split_size, (raw,), r),
        cross == 'x' || cross == 'X',
        raw@ == w.push(cross) + h,
        forall|k: int| 0 <= k < w.len() ==> #[trigger] w[k] != 'x' && w[k] != 'X',
    ensures
        r is Some,
        r matches Some(sides) ==> sides.0@ == w && sides.1@ == h,
{
    let n = w.len() as int;
    assert(raw@[n] == cross);
    lemma_first_cross_is_first(raw@, 0, n);
    let at = first_cross(raw@, 0);
    if at < n {
        assert(raw@[at] == w[at]);
    }
    assert(raw@.subrange(0, at) =~= w);
    assert(raw@.subrange(at + 1, raw@.len() as int) =~= h);
}

/// A switch that is added to a command line turns on what its name says, a call
/// for help is answered with the usage, and a file that is added is named behind
/// the others, at the quantity in force if one was said.
pub proof fn law_a_further_word_changes_only_itself(
    args: &Vec<String>,
    readings: &Vec<Reading>,
    more: &Vec<String>,
    more_readings: &Vec<Reading>,
    word: String,
    of_word: Reading,
    opts: Options,
    r: Result<Option<Options>, String>,
    i: int,
)
    requires
        args@.len() == readings@.len(),
        more@ == args@.push(word),
        more_readings@ == readings@.push(of_word),
        call_ensures(
            parse_args,
            (args, readings),
            Ok::<Option<Options>, String>(Some(opts)),
        ),
        call_ensures(parse_args, (more, more_readings), r),
    ensures
        word@ == "-h"@ || word@ == "--help"@ ==> r == Ok::<Option<Options>, String>(None),
        word@ == "--json"@ || word@ == "--unplaced"@ ==> {
            &&& r is Ok && r->Ok_0 is Some
            &&& r matches Ok(Some(next)) ==> {
                &&& next.json <==> opts.json || word@ == "--json"@
                &&& next.include_unplaced <==> opts.include_unplaced || word@ == "--unplaced"@
                &&& next.config == opts.config
                &&& next.sheet == opts.sheet
                &&& next.sheets == opts.sheets
                &&& next.qty == opts.qty
                &&& same_files(next, opts)
                &&& same_places(next, opts)
            }
        },
        word@.len() == 0 || word@[0] != '-' ==> {
            &&& r is Ok && r->Ok_0 is Some
            &&& r matches Ok(Some(next)) ==> {
                &&& next.files@.len() == opts.files@.len() + 1
                &&& next.files@.last().0@ == word@
                &&& next.files@.last().1 is None || next.files@.last().1 == Some(opts.qty)
                &&& 0 <= i < opts.files@.len() ==> next.files@[i].0@ == opts.files@[i].0@
                    && next.files@[i].1 == opts.files@[i].1
                &&& next.config == opts.config
                &&& next.sheet == opts.sheet
                &&& next.sheets == opts.sheets
                &&& next.qty == opts.qty
                &&& next.json == opts.json
                &&& next.include_unplaced == opts.include_unplaced
                &&& same_places(next, opts)
            }
        },
{
    lemma_option_names();
    let a = texts_view(args@);
    let m = texts_view(more@);
    let n = args@.len() as int;
    lemma_read_options_name_a_file(a, readings@, 0, default_options(), false);
    assert forall|k: int| 0 <= k < n implies a[k] == m[k] by {
        assert(more@[k] == args@[k]);
    }
    let seen = lemma_goes_on(
        a,
        readings@,
        m,
        more_readings@,
        0,
        default_options(),
        false,
        opts@,
    );
    assert(m[n] == word@);
    assert(m.len() == n + 1);
    reveal_with_fuel(parsed, 2);
    if word@.len() == 0 || word@[0] != '-' {
        lemma_a_file_is_no_option(word@);
    }
    if let Ok(Some(next)) = r {
        if next@.files == opts@.files {
            lemma_same_files(next, opts);
        }
        assert(next@.files.len() == next.files@.len());
        assert(opts@.files.len() == opts.files@.len());
        if next@.files.len() > 0 {
            assert(next@.files.last() == (next.files@.last().0@, next.files@.last().1));
        }
        if 0 <= i < opts.files@.len() && i < next.files@.len() {
            assert(next@.files[i] == (next.files@[i].0@, next.files@[i].1));
            assert(opts@.files[i] == (opts.files@[i].0@, opts.files@[i].1));
        }
    }
}

/// A file named behind a quantity has that quantity, whatever stood before.
pub proof fn law_a_file_takes_the_quantity_before_it(
    args: &Vec<String>,
    readings: &Vec<Reading>,
    more: &Vec<String>,
    more_readings: &Vec<Reading>,
    name: String,
    raw: String,
    file: String,
    of_name: Reading,
    reading: Reading,
    of_file: Reading,
    opts: Options,
    r: Result<Option<Options>, String>,
)
    requires
        args@.len() == readings@.len(),
        more@ == args@.push(name).push(raw).push(file),
        more_readings@ == readings@.push(of_name).push(reading).push(of_file),
        name@ == "--qty"@,
        whole(raw@, usize::MAX as nat) is Some,
        file@.len() == 0 || file@[0] != '-',
        call_ensures(
            parse_args,
            (args, readings),
            Ok::<Option<Options>, String>(Some(opts)),
        ),
        call_ensures(parse_args, (more, more_readings), r),
    ensures
        r is Ok && r->Ok_0 is Some,
        r matches Ok(Some(next)) ==> {
            &&& next.files@.len() == opts.files@.len() + 1
            &&& next.files@.last().0@ == file@
            &&& next.files@.last().1 == Some(whole(raw@, usize::MAX as nat)->Some_0 as usize)
        },
{
    lemma_option_names();
    lemma_a_file_is_no_option(file@);
    let a = texts_view(args@);
    let m = texts_view(more@);
    let n = args@.len() as int;
    assert forall|k: int| 0 <= k < n implies a[k] == m[k] by {
        assert(more@[k] == args@[k]);
    }
    let seen = lemma_goes_on(
        a,
        readings@,
        m,
        more_readings@,
        0,
        default_options(),
        false,
        opts@,
    );
    assert(m[n] == name@ && m[n + 1] == raw@ && m[n + 2] == file@);
    assert(m.len() == n + 3);
    let qty = whole(raw@, usize::MAX as nat)->Some_0 as usize;
    let set = OptionsModel { qty, ..opts@ };
    assert(parsed(m, more_readings@, n, opts@, seen) == parsed(
        m,
        more_readings@,
        n + 2,
        set,
        true,
    ));
    let named = OptionsModel { files: set.files.push((file@, Some(qty))), ..set };
    assert(parsed(m, more_readings@, n + 2, set, true) == parsed(
        m,
        more_readings@,
        n + 3,
        named,
        true,
    ));
    if let Ok(Some(next)) = r {
        assert(next@.files.len() == next.files@.len());
        assert(opts@.files.len() == opts.files@.len());
        assert(next@.files.last() == (next.files@.last().0@, next.files@.last().1));
    }
}

/// Without a file nothing is nested; and with nothing but a file, everything else
/// is as it is at the start, and the file follows the job's quantity.
pub proof fn law_a_lone_file_is_nested_as_is(
    args: &Vec<String>,
    readings: &Vec<Reading>,
    r: Result<Option<Options>, String>,
    start: Options,
)
    requires
        args@.len() == readings@.len(),
        args@.len() <= 1,
        args@.len() == 1 ==> args@[0]@.len() == 0 || args@[0]@[0] != '-',
        call_ensures(parse_args, (args, readings), r),
        call_ensures(<Options as Default>::default, (), start),
    ensures
        args@.len() == 0 ==> r is Err,
        args@.len() == 1 ==> r is Ok && r->Ok_0 is Some,
        r matches Ok(Some(opts)) ==> {
            &&& opts.files@.len() == 1
            &&& opts.files@[0].0@ == args@[0]@
            &&& opts.files@[0].1 is None
            &&& opts.config == start.config
            &&& opts.sheet == start.sheet
            &&& opts.sheets == start.sheets
            &&& opts.qty == start.qty
            &&& opts.json == start.json
            &&& opts.include_unplaced == start.include_unplaced
            &&& same_places(opts, start)
        },
{
    let a = texts_view(args@);
    assert(a.len() == args@.len());
    if args@.len() == 1 {
        assert(a[0] == args@[0]@);
        lemma_a_file_is_no_option(a[0]);
        let named = OptionsModel {
            files: default_options().files.push((a[0], None)),
            ..default_options()
        };
        assert(parsed(a, readings@, 0, default_options(), false) == parsed(
            a,
            readings@,
            1,
            named,
            false,
        ));
    }
    if let Ok(Some(opts)) = r {
        assert(opts@.files.len() == opts.files@.len());
        assert(opts@.files[0] == (opts.files@[0].0@, opts.files@[0].1));
    }
}

/// A run starts with one of each file on a hundred sheets of stock, two thousand
/// four hundred and forty by half as much, with no margin and no distance.
pub proof fn law_a_run_starts_plain(start: Options)
    requires
        call_ensures(<Options as Default>::default, (), start),
    ensures
        start.files@.len() == 0,
        start.sheets == 100,
        start.qty == 1,
        start.out is None,
        start.svg_unit is None,
        !start.json,
        !start.include_unplaced,
        start.config.margin.bits == 0,
        start.config.spacing.bits == 0,
        start.config.kerf.bits == 0,
        start.config.rotations == 4,
        start.config.population_size == 10,
        start.config.generations == 5,
        start.config.runs == 1,
        start.config.seed == 0,
        !start.config.mirror,
        start.config.placement_type == PlacementTypeDto::TightFit,
        crate::scalar::stands_for_whole(start.sheet.0, 11, 2048, 2440),
        crate::scalar::stands_for_whole(start.sheet.1, 10, 1024, 1220),
{
    assert(start@.files.len() == start.files@.len());
}

/// The way of placing is told by its name, whatever dashes, underscores or
/// capitals it is written with.
pub proof fn law_a_placement_is_told_by_its_name(
    a: &str,
    b: &str,
    r: Result<PlacementTypeDto, String>,
    other: Result<PlacementTypeDto, String>,
)
    requires
        call_ensures(placement_type, (a,), r),
        call_ensures(placement_type, (b,), other),
        lowered(a@).filter(|c: char| c != '-' && c != '_') == lowered(b@).filter(
            |c: char| c != '-' && c != '_',
        ),
    ensures
        r is Ok == other is Ok,
        r is Ok ==> r->Ok_0 == other->Ok_0,
        r is Ok <==> {
            let plain = lowered(a@).filter(|c: char| c != '-' && c != '_');
            plain == "gravity"@ || plain == "box"@ || plain == "convexhull"@ || plain
                == "tightfit"@ || plain == "gravitytightfit"@ || plain == "gravitycorrective"@
        },
        r matches Ok(kind) ==> {
            let plain = lowered(a@).filter(|c: char| c != '-' && c != '_');
            &&& kind == PlacementTypeDto::Gravity ==> plain == "gravity"@
            &&& kind == PlacementTypeDto::Box ==> plain == "box"@
            &&& kind == PlacementTypeDto::ConvexHull ==> plain == "convexhull"@
            &&& kind == PlacementTypeDto::TightFit ==> plain == "tightfit"@
            &&& kind == PlacementTypeDto::GravityTightFit ==> plain == "gravitytightfit"@
            &&& kind == PlacementTypeDto::GravityCorrective ==> plain == "gravitycorrective"@
        },
{
}

/// A way of placing that is added to a command line is the one of that name, and
/// changes nothing else; an unknown one is refused.
pub proof fn law_a_further_placement_changes_only_itself(
    args: &Vec<String>,
    readings: &Vec<Reading>,
    more: &Vec<String>,
    more_readings: &Vec<Reading>,
    name: String,
    raw: String,
    as_typed: &str,
    of_name: Reading,
    reading: Reading,
    opts: Options,
    kind: Result<PlacementTypeDto, String>,
    r: Result<Option<Options>, String>,
)
    requires
        args@.len() == readings@.len(),
        more@ == args@.push(name).push(raw),
        more_readings@ == readings@.push(of_name).push(reading),
        name@ == "--placement"@,
        as_typed@ == raw@,
        call_ensures(placement_type, (as_typed,), kind),
        call_ensures(
            parse_args,
            (args, readings),
            Ok::<Option<Options>, String>(Some(opts)),
        ),
        call_ensures(parse_args, (more, more_readings), r),
    ensures
        r is Ok <==> kind is Ok,
        r is Err ==> r->Err_0@ == kind->Err_0@,
        r matches Ok(Some(next)) ==> same_beside_config(next, opts) && next.config == (
        NestConfigDto { placement_type: kind->Ok_0, ..opts.config }),
{
    lemma_option_names();
    lemma_read_options_name_a_file(
        texts_view(args@),
        readings@,
        0,
        default_options(),
        false,
    );
    lemma_two_more(
        args,
        readings,
        more,
        more_readings,
        name,
        raw,
        of_name,
        reading,
        opts,
        Flag::Placement,
    );
    if let Ok(Some(next)) = r {
        lemma_same_files(next, opts);
    }
}

} // verus!
