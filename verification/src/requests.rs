//! What the engine is asked to do with a finished result: check it, judge a
//! part that was moved by hand, find its offcuts, repack one of its sheets.
//!
//! Each request is checked and resolved here; what padding leaves of a sheet or
//! a part, and the geometry itself, is the engine's to say.

use std::collections::HashMap;
use vstd::prelude::*;
use crate::config::{config_problem, reports, validate_nest_config, NestConfigDto};
use crate::order::reversed;
use crate::parts::PartRuleDto;
use crate::placement::{sheets_view, PlacedPartDto, SheetModel, SheetPlacementDto};
use crate::scalar::Scalar;
use crate::shape::PolygonDto;
use crate::text::{decimal, decimal_text};

verus! {

broadcast use vstd::std_specs::hash::group_hash_axioms;

/// The parts of a list whose ids have a shape.
pub open spec fn known_parts(parts: Seq<PlacedPartDto>, known: Set<usize>) -> Seq<PlacedPartDto> {
    parts.filter(|p: PlacedPartDto| known.contains(p.id))
}

/// A list's parts without one id.
pub open spec fn other_parts(parts: Seq<PlacedPartDto>, id: usize) -> Seq<PlacedPartDto> {
    parts.filter(|p: PlacedPartDto| p.id != id)
}

fn keep_known(
    parts: &Vec<PlacedPartDto>,
    parts_by_id: &HashMap<usize, PolygonDto>,
) -> (r: Vec<PlacedPartDto>)
    ensures
        r@ == known_parts(parts@, parts_by_id@.dom()),
{
    let mut out: Vec<PlacedPartDto> = Vec::new();
    let mut i: usize = 0;
    proof {
        reveal(Seq::filter);
    }
    while i < parts.len()
        invariant
            i <= parts.len(),
            out@ == known_parts(parts@.subrange(0, i as int), parts_by_id@.dom()),
        decreases parts.len() - i,
    {
        proof {
            assert(parts@.subrange(0, i + 1).drop_last() == parts@.subrange(0, i as int));
            reveal(Seq::filter);
        }
        if parts_by_id.contains_key(&parts[i].id) {
            out.push(parts[i]);
        }
        i += 1;
    }
    assert(parts@.subrange(0, parts@.len() as int) == parts@);
    out
}

fn keep_others(parts: &Vec<PlacedPartDto>, id: usize) -> (r: Vec<PlacedPartDto>)
    ensures
        r@ == other_parts(parts@, id),
{
    let mut out: Vec<PlacedPartDto> = Vec::new();
    let mut i: usize = 0;
    proof {
        reveal(Seq::filter);
    }
    while i < parts.len()
        invariant
            i <= parts.len(),
            out@ == other_parts(parts@.subrange(0, i as int), id),
        decreases parts.len() - i,
    {
        proof {
            assert(parts@.subrange(0, i + 1).drop_last() == parts@.subrange(0, i as int));
            reveal(Seq::filter);
        }
        if parts[i].id != id {
            out.push(parts[i]);
        }
        i += 1;
    }
    assert(parts@.subrange(0, parts@.len() as int) == parts@);
    out
}

// --- a part moved by hand -------------------------------------------------

/// May this part sit here?
pub struct ValidatePlacementRequest {
    pub sheet: PolygonDto,
    pub placement: SheetPlacementDto,
    pub parts_by_id: HashMap<usize, PolygonDto>,
    pub moved_id: usize,
    pub x: Scalar,
    pub y: Scalar,
    pub rotation: Scalar,
    pub config: NestConfigDto,
}

#[derive(Clone, Copy, PartialEq, Eq, Structural, Debug)]
pub struct ValidatePlacementResponse {
    pub valid: bool,
}

/// The first thing that keeps a moved part from being judged.
pub open spec fn move_problem(
    request: ValidatePlacementRequest,
    sheet_usable: bool,
    parts_usable: bool,
) -> Option<Seq<char>> {
    if config_problem(request.config) is Some {
        config_problem(request.config)
    } else if !sheet_usable {
        Some("margin/spacing leaves the sheet with no usable area"@)
    } else if !parts_usable {
        Some("spacing leaves a part with no usable outline"@)
    } else if !request.parts_by_id@.contains_key(request.moved_id) {
        Some("unknown part id "@ + decimal(request.moved_id as nat))
    } else {
        None
    }
}

/// What a moved part must keep clear of: every other part of the sheet that has
/// a shape. The part itself is no obstacle.
pub fn move_obstacles(
    request: &ValidatePlacementRequest,
    sheet_usable: bool,
    parts_usable: bool,
) -> (r: Result<Vec<PlacedPartDto>, String>)
    ensures
        match r {
            Ok(others) => {
                &&& move_problem(*request, sheet_usable, parts_usable) is None
                &&& others@ == known_parts(
                    other_parts(request.placement.parts@, request.moved_id),
                    request.parts_by_id@.dom(),
                )
            },
            Err(message) => move_problem(*request, sheet_usable, parts_usable) == Some(message@),
        },
{
    validate_nest_config(&request.config)?;
    if !sheet_usable {
        return Err("margin/spacing leaves the sheet with no usable area".to_owned());
    }
    if !parts_usable {
        return Err("spacing leaves a part with no usable outline".to_owned());
    }
    if !request.parts_by_id.contains_key(&request.moved_id) {
        let mut message = "unknown part id ".to_owned();
        message.append(decimal_text(request.moved_id as u64).as_str());
        return Err(message);
    }
    let others = keep_others(&request.placement.parts, request.moved_id);
    Ok(keep_known(&others, &request.parts_by_id))
}

/// A part is never an obstacle to itself.
pub proof fn law_a_part_is_no_obstacle_to_itself(
    parts: Seq<PlacedPartDto>,
    known: Set<usize>,
    id: usize,
)
    ensures
        forall|i: int|
            0 <= i < known_parts(other_parts(parts, id), known).len() ==> (
            #[trigger] known_parts(other_parts(parts, id), known)[i]).id != id,
{
    let others = other_parts(parts, id);
    let kept = known_parts(others, known);
    assert forall|i: int| 0 <= i < kept.len() implies (#[trigger] kept[i]).id != id by {
        broadcast use vstd::seq_lib::group_seq_properties;
        others.lemma_filter_contains_rev(|p: PlacedPartDto| known.contains(p.id), kept[i]);
        let k = choose|k: int| 0 <= k < others.len() && others[k] == kept[i];
        parts.lemma_filter_pred(|p: PlacedPartDto| p.id != id, k);
    }
}

// --- checking a whole result ----------------------------------------------

/// Is this whole arrangement manufacturable?
pub struct AuditRequest {
    pub sheets: Vec<PolygonDto>,
    pub placements: Vec<SheetPlacementDto>,
    pub parts_by_id: HashMap<usize, PolygonDto>,
    pub config: NestConfigDto,
}

/// The first sheet of a list that was not supplied or that padding leaves
/// nothing of.
pub open spec fn sheet_problem(
    placements: Seq<SheetModel>,
    sheets_usable: Seq<bool>,
) -> Option<Seq<char>>
    decreases placements.len(),
{
    if placements.len() == 0 {
        None
    } else {
        let earlier = sheet_problem(placements.drop_last(), sheets_usable);
        let index = placements.last().sheet_index;
        if earlier is Some {
            earlier
        } else if index >= sheets_usable.len() {
            Some(
                "placement references sheet "@ + decimal(index as nat) + " which wasn't supplied"@,
            )
        } else if !sheets_usable[index as int] {
            Some("margin/spacing leaves the sheet with no usable area"@)
        } else {
            None
        }
    }
}

/// The first thing that keeps a result from being checked.
pub open spec fn audit_problem(
    request: AuditRequest,
    unusable_part: Option<usize>,
    sheets_usable: Seq<bool>,
) -> Option<Seq<char>> {
    if config_problem(request.config) is Some {
        config_problem(request.config)
    } else {
        match unusable_part {
            Some(id) => Some(
                "spacing leaves part "@ + decimal(id as nat) + " with no usable outline"@,
            ),
            None => sheet_problem(sheets_view(request.placements@), sheets_usable),
        }
    }
}

/// The parts of each sheet that have a shape.
pub open spec fn known_on_sheets(
    placements: Seq<SheetModel>,
    known: Set<usize>,
) -> Seq<SheetModel> {
    placements.map_values(
        |s: SheetModel|
            SheetModel { sheet_index: s.sheet_index, parts: known_parts(s.parts, known) },
    )
}

proof fn lemma_first_sheet_problem(placements: Seq<SheetModel>, usable: Seq<bool>, upto: int)
    requires
        0 <= upto <= placements.len(),
        sheet_problem(placements.subrange(0, upto), usable) is Some,
    ensures
        sheet_problem(placements, usable) == sheet_problem(placements.subrange(0, upto), usable),
    decreases placements.len() - upto,
{
    if upto < placements.len() {
        assert(placements.subrange(0, upto + 1).drop_last() == placements.subrange(0, upto));
        lemma_first_sheet_problem(placements, usable, upto + 1);
    } else {
        assert(placements.subrange(0, upto) == placements);
    }
}

/// What a check looks at: every sheet of the result with the parts that have a
/// shape. An id without one is passed over: a stale id must not make the check
/// unavailable. `unusable_part` is a part that padding leaves nothing of, if
/// there is one.
pub fn audit_sheets(
    request: &AuditRequest,
    unusable_part: Option<usize>,
    sheets_usable: &Vec<bool>,
) -> (r: Result<Vec<SheetPlacementDto>, String>)
    requires
        sheets_usable@.len() == request.sheets@.len(),
    ensures
        match r {
            Ok(sheets) => {
                &&& audit_problem(*request, unusable_part, sheets_usable@) is None
                &&& sheets_view(sheets@) == known_on_sheets(
                    sheets_view(request.placements@),
                    request.parts_by_id@.dom(),
                )
            },
            Err(message) => audit_problem(*request, unusable_part, sheets_usable@) == Some(
                message@,
            ),
        },
{
    validate_nest_config(&request.config)?;
    match unusable_part {
        Some(id) => {
            let mut message = "spacing leaves part ".to_owned();
            message.append(decimal_text(id as u64).as_str());
            message.append(" with no usable outline");
            return Err(message);
        },
        None => {},
    }
    let placements = &request.placements;
    let ghost all = sheets_view(placements@);
    let mut out: Vec<SheetPlacementDto> = Vec::new();
    let mut i: usize = 0;
    assert(all.subrange(0, 0).len() == 0);
    while i < placements.len()
        invariant
            i <= placements.len(),
            placements == request.placements,
            all == sheets_view(placements@),
            unusable_part is None,
            config_problem(request.config) is None,
            sheet_problem(all.subrange(0, i as int), sheets_usable@) is None,
            out@.len() == i,
            forall|k: int|
                0 <= k < i ==> (#[trigger] out@[k])@ == (SheetModel {
                    sheet_index: placements@[k].sheet_index,
                    parts: known_parts(placements@[k].parts@, request.parts_by_id@.dom()),
                }),
        decreases placements.len() - i,
    {
        proof {
            assert(all.subrange(0, i + 1).drop_last() == all.subrange(0, i as int));
            assert(all.subrange(0, i + 1).last() == placements@[i as int]@);
        }
        let index: usize = placements[i].sheet_index;
        if index >= sheets_usable.len() {
            let mut message = "placement references sheet ".to_owned();
            message.append(decimal_text(index as u64).as_str());
            message.append(" which wasn't supplied");
            proof {
                lemma_first_sheet_problem(all, sheets_usable@, i + 1);
            }
            return Err(message);
        }
        if !sheets_usable[index] {
            proof {
                lemma_first_sheet_problem(all, sheets_usable@, i + 1);
            }
            return Err("margin/spacing leaves the sheet with no usable area".to_owned());
        }
        out.push(
            SheetPlacementDto {
                sheet_index: index,
                parts: keep_known(&placements[i].parts, &request.parts_by_id),
            },
        );
        i += 1;
    }
    assert(all.subrange(0, all.len() as int) == all);
    assert(sheets_view(out@) =~= known_on_sheets(all, request.parts_by_id@.dom()));
    Ok(out)
}

// --- offcuts --------------------------------------------------------------

/// What is left of the sheets of a result?
pub struct RemnantRequest {
    pub sheets: Vec<PolygonDto>,
    pub placements: Vec<SheetPlacementDto>,
    pub parts_by_id: HashMap<usize, PolygonDto>,
    pub config: NestConfigDto,
}

/// One reusable offcut.
pub struct RemnantDto {
    pub sheet_index: usize,
    pub polygon: PolygonDto,
    pub area: Scalar,
    pub usable_width: Scalar,
    pub usable_height: Scalar,
}

/// The sheets of a list that were supplied.
pub open spec fn supplied(placements: Seq<SheetModel>, sheets: nat) -> Seq<SheetModel> {
    placements.filter(|s: SheetModel| s.sheet_index < sheets)
}

/// The sheets whose offcuts are looked for: every sheet that was supplied, not
/// only the last, each with the parts that have a shape.
pub fn remnant_sheets(request: &RemnantRequest) -> (r: Result<Vec<SheetPlacementDto>, String>)
    ensures
        match r {
            Ok(sheets) => {
                &&& config_problem(request.config) is None
                &&& sheets_view(sheets@) == known_on_sheets(
                    supplied(sheets_view(request.placements@), request.sheets@.len()),
                    request.parts_by_id@.dom(),
                )
            },
            Err(message) => config_problem(request.config) == Some(message@),
        },
{
    validate_nest_config(&request.config)?;
    let placements = &request.placements;
    let ghost all = sheets_view(placements@);
    let ghost known = request.parts_by_id@.dom();
    let ghost count = request.sheets@.len();
    let mut out: Vec<SheetPlacementDto> = Vec::new();
    let mut i: usize = 0;
    proof {
        reveal(Seq::filter);
        assert(all.subrange(0, 0) =~= Seq::<SheetModel>::empty());
        assert(sheets_view(out@) =~= known_on_sheets(supplied(all.subrange(0, 0), count), known));
    }
    while i < placements.len()
        invariant
            i <= placements.len(),
            placements == request.placements,
            all == sheets_view(placements@),
            known == request.parts_by_id@.dom(),
            count == request.sheets@.len(),
            sheets_view(out@) == known_on_sheets(supplied(all.subrange(0, i as int), count), known),
        decreases placements.len() - i,
    {
        let ghost done = all.subrange(0, i as int);
        let ghost before = sheets_view(out@);
        proof {
            assert(all.subrange(0, i + 1).drop_last() == done);
            assert(all.subrange(0, i + 1).last() == placements@[i as int]@);
            reveal(Seq::filter);
        }
        let index: usize = placements[i].sheet_index;
        if index < request.sheets.len() {
            let parts = keep_known(&placements[i].parts, &request.parts_by_id);
            out.push(SheetPlacementDto { sheet_index: index, parts });
            proof {
                let sheet = placements@[i as int]@;
                assert(supplied(all.subrange(0, i + 1), count) == supplied(done, count).push(
                    sheet,
                ));
                assert(sheets_view(out@) =~= before.push(out@.last()@));
                assert(known_on_sheets(supplied(done, count).push(sheet), known)
                    =~= known_on_sheets(supplied(done, count), known).push(out@.last()@));
            }
        }
        i += 1;
    }
    assert(all.subrange(0, all.len() as int) == all);
    Ok(out)
}

/// Whether offcuts are in order: the largest first.
pub open spec fn largest_first(remnants: Seq<RemnantDto>) -> bool {
    forall|i: int, j: int|
        0 <= i <= j < remnants.len() ==> (#[trigger] remnants[i]).area.total_rank() >= (
        #[trigger] remnants[j]).area.total_rank()
}

/// The same offcuts, the largest first; of two of one size the first found
/// stays first.
pub fn order_remnants(remnants: Vec<RemnantDto>) -> (r: Vec<RemnantDto>)
    ensures
        largest_first(r@),
        exists|places: Seq<int>|
            {
                &&& places.len() == r@.len() == remnants@.len()
                &&& places.no_duplicates()
                &&& forall|i: int|
                    0 <= i < places.len() ==> 0 <= (#[trigger] places[i]) < remnants@.len()
                        && r@[i] == remnants@[places[i]]
                &&& forall|i: int, j: int|
                    0 <= i < j < places.len() && r@[i].area.total_rank()
                        == r@[j].area.total_rank() ==> (#[trigger] places[i]) < (
                    #[trigger] places[j])
            },
{
    let ghost all = remnants@;
    let mut waiting = reversed(remnants);
    let mut out: Vec<RemnantDto> = Vec::new();
    let ghost mut places = Seq::<int>::empty();
    while waiting.len() > 0
        invariant
            out@.len() + waiting@.len() == all.len(),
            forall|k: int| 0 <= k < waiting@.len() ==> #[trigger] waiting@[k] == all[all.len() - 1
                - k],
            largest_first(out@),
            places.len() == out@.len(),
            places.no_duplicates(),
            forall|i: int|
                0 <= i < places.len() ==> 0 <= (#[trigger] places[i]) < out@.len() && out@[i]
                    == all[places[i]],
            forall|i: int, j: int|
                0 <= i < j < places.len() && out@[i].area.total_rank()
                    == out@[j].area.total_rank() ==> (#[trigger] places[i]) < (
                #[trigger] places[j]),
        decreases waiting.len(),
    {
        let ghost next = out@.len() as int;
        match waiting.pop() {
            Some(remnant) => {
                assert(remnant == all[next]);
                let area: Scalar = remnant.area;
                let mut at: usize = out.len();
                while at > 0 && out[at - 1].area.total_lt(area)
                    invariant
                        at <= out.len(),
                        forall|k: int|
                            at <= k < out@.len() ==> (#[trigger] out@[k]).area.total_rank()
                                < area.total_rank(),
                    decreases at,
                {
                    at -= 1;
                }
                let ghost before = out@;
                let ghost old_places = places;
                out.insert(at, remnant);
                proof {
                    places = places.insert(at as int, next);
                    lemma_remnant_inserted(all, before, old_places, at as int, next);
                }
            },
            None => {},
        }
    }
    out
}

proof fn lemma_remnant_inserted(
    all: Seq<RemnantDto>,
    out: Seq<RemnantDto>,
    places: Seq<int>,
    at: int,
    next: int,
)
    requires
        0 <= at <= out.len(),
        out.len() == next < all.len(),
        largest_first(out),
        places.len() == out.len(),
        places.no_duplicates(),
        forall|i: int|
            0 <= i < places.len() ==> 0 <= (#[trigger] places[i]) < out.len() && out[i]
                == all[places[i]],
        forall|i: int, j: int|
            0 <= i < j < places.len() && out[i].area.total_rank() == out[j].area.total_rank()
                ==> (#[trigger] places[i]) < (#[trigger] places[j]),
        forall|k: int|
            at <= k < out.len() ==> (#[trigger] out[k]).area.total_rank()
                < all[next].area.total_rank(),
        at > 0 ==> out[at - 1].area.total_rank() >= all[next].area.total_rank(),
    ensures
        ({
            let o = out.insert(at, all[next]);
            let p = places.insert(at, next);
            &&& largest_first(o)
            &&& p.no_duplicates()
            &&& forall|i: int|
                0 <= i < p.len() ==> 0 <= (#[trigger] p[i]) < o.len() && o[i] == all[p[i]]
            &&& forall|i: int, j: int|
                0 <= i < j < p.len() && o[i].area.total_rank() == o[j].area.total_rank() ==> (
                #[trigger] p[i]) < (#[trigger] p[j])
        }),
{
    let o = out.insert(at, all[next]);
    let p = places.insert(at, next);
    assert forall|i: int| 0 <= i < p.len() implies 0 <= (#[trigger] p[i]) < o.len() && o[i]
        == all[p[i]] by {
        if i < at {
            assert(p[i] == places[i]);
        } else if i > at {
            assert(p[i] == places[i - 1]);
        }
    }
    assert forall|i: int, j: int| 0 <= i <= j < o.len() implies (
    #[trigger] o[i]).area.total_rank() >= (#[trigger] o[j]).area.total_rank() by {
        if i < at && j >= at {
            assert(out[i].area.total_rank() >= out[at - 1].area.total_rank());
        }
        if i < at && j > at {
            assert(out[i].area.total_rank() >= out[j - 1].area.total_rank());
        }
        if i > at {
            assert(out[i - 1].area.total_rank() >= out[j - 1].area.total_rank());
        }
        if j < at {
            assert(out[i].area.total_rank() >= out[j].area.total_rank());
        }
    }
    assert forall|i: int, j: int|
        0 <= i < j < p.len() && o[i].area.total_rank() == o[j].area.total_rank() implies (
    #[trigger] p[i]) < (#[trigger] p[j]) by {
        if j == at {
            assert(p[i] == places[i]);
        } else if i == at {
            assert(o[j] == out[j - 1]);
        } else {
            let x = if i < at { i } else { i - 1 };
            let y = if j < at { j } else { j - 1 };
            assert(p[i] == places[x] && p[j] == places[y]);
            assert(o[i] == out[x] && o[j] == out[y]);
        }
    }
    assert forall|i: int, j: int| 0 <= i < p.len() && 0 <= j < p.len() && i != j implies p[i]
        != p[j] by {
        let x = if i < at { i } else { i - 1 };
        let y = if j < at { j } else { j - 1 };
        if i != at && j != at {
            assert(places[x] != places[y]);
        } else if i == at {
            assert(p[j] == places[y]);
        } else {
            assert(p[i] == places[x]);
        }
    }
}

// --- repacking one sheet --------------------------------------------------

/// Can the parts of this sheet be packed tighter?
pub struct RepackSheetRequest {
    pub sheet: PolygonDto,
    pub placement: SheetPlacementDto,
    pub parts_by_id: HashMap<usize, PolygonDto>,
    pub config: NestConfigDto,
    pub part_rules: HashMap<usize, PartRuleDto>,
}

pub struct RepackSheetResponse {
    pub placement: SheetPlacementDto,
    pub improved: bool,
    pub utilisation: Scalar,
}

/// The first thing that keeps a sheet from being repacked.
pub open spec fn repack_problem(
    request: RepackSheetRequest,
    sheet_usable: bool,
    parts_usable: bool,
) -> Option<Seq<char>> {
    if request.placement.parts@.len() == 0 {
        Some("sheet has no parts to repack"@)
    } else if config_problem(request.config) is Some {
        config_problem(request.config)
    } else if !sheet_usable {
        Some("margin/spacing leaves the sheet with no usable area"@)
    } else if !parts_usable {
        Some("spacing leaves a part with no usable outline"@)
    } else {
        None
    }
}

/// Checks a repack, before any padding: there must be parts, and the settings
/// must be sound.
pub fn validate_repack(request: &RepackSheetRequest) -> (r: Result<(), String>)
    ensures
        reports(r, repack_problem(*request, true, true)),
{
    if request.placement.parts.len() == 0 {
        return Err("sheet has no parts to repack".to_owned());
    }
    validate_nest_config(&request.config)
}

/// Checks a repack once its sheet and its parts are padded, and says which
/// parts must stay where they are.
pub fn prepare_repack(
    request: &RepackSheetRequest,
    sheet_usable: bool,
    parts_usable: bool,
) -> (r: Result<Vec<usize>, String>)
    ensures
        match r {
            Ok(locked) => {
                &&& repack_problem(*request, sheet_usable, parts_usable) is None
                &&& locked@ == locked_ids(request.placement.parts@)
            },
            Err(message) => repack_problem(*request, sheet_usable, parts_usable) == Some(message@),
        },
{
    validate_repack(request)?;
    if !sheet_usable {
        return Err("margin/spacing leaves the sheet with no usable area".to_owned());
    }
    if !parts_usable {
        return Err("spacing leaves a part with no usable outline".to_owned());
    }
    Ok(collect_locked(&request.placement.parts))
}

/// The ids of the parts that are pinned, in the order of the parts.
pub open spec fn locked_ids(parts: Seq<PlacedPartDto>) -> Seq<usize>
    decreases parts.len(),
{
    if parts.len() == 0 {
        Seq::empty()
    } else if parts.last().locked {
        locked_ids(parts.drop_last()).push(parts.last().id)
    } else {
        locked_ids(parts.drop_last())
    }
}

fn collect_locked(parts: &Vec<PlacedPartDto>) -> (r: Vec<usize>)
    ensures
        r@ == locked_ids(parts@),
{
    let mut out: Vec<usize> = Vec::new();
    let mut i: usize = 0;
    assert(parts@.subrange(0, 0).len() == 0);
    while i < parts.len()
        invariant
            i <= parts.len(),
            out@ == locked_ids(parts@.subrange(0, i as int)),
        decreases parts.len() - i,
    {
        assert(parts@.subrange(0, i + 1).drop_last() == parts@.subrange(0, i as int));
        if parts[i].locked {
            out.push(parts[i].id);
        }
        i += 1;
    }
    assert(parts@.subrange(0, parts@.len() as int) == parts@);
    out
}

/// Parts with the pinned ones marked.
pub open spec fn marked(parts: Seq<PlacedPartDto>, locked: Seq<usize>) -> Seq<PlacedPartDto> {
    parts.map_values(|p: PlacedPartDto| PlacedPartDto { locked: locked.contains(p.id), ..p })
}

/// Whether a list holds an id.
pub(crate) fn holds_id(ids: &Vec<usize>, id: usize) -> (r: bool)
    ensures
        r == ids@.contains(id),
{
    let mut i: usize = 0;
    while i < ids.len()
        invariant
            i <= ids.len(),
            forall|k: int| 0 <= k < i ==> ids@[k] != id,
        decreases ids.len() - i,
    {
        if ids[i] == id {
            return true;
        }
        i += 1;
    }
    false
}

/// Parts with the pinned ones marked.
pub fn mark_locked(parts: &Vec<PlacedPartDto>, locked: &Vec<usize>) -> (r: Vec<PlacedPartDto>)
    ensures
        r@ == marked(parts@, locked@),
{
    let mut out: Vec<PlacedPartDto> = Vec::new();
    let mut i: usize = 0;
    while i < parts.len()
        invariant
            i <= parts.len(),
            out@.len() == i,
            forall|k: int| 0 <= k < i ==> #[trigger] out@[k] == marked(parts@, locked@)[k],
        decreases parts.len() - i,
    {
        let part: PlacedPartDto = parts[i];
        out.push(PlacedPartDto { locked: holds_id(locked, part.id), ..part });
        i += 1;
    }
    assert(out@ =~= marked(parts@, locked@));
    out
}

/// The answer to a repack. `repacked` is what the engine made of the sheet, and
/// how full it is, where it found anything tighter; it knows nothing of pins
/// and of the sheet's place in the result, so both are put back. Otherwise the
/// sheet stays as it was.
pub fn repack_response(
    request: RepackSheetRequest,
    repacked: Option<(Vec<PlacedPartDto>, Scalar)>,
    locked: &Vec<usize>,
    utilisation_before: Scalar,
) -> (r: RepackSheetResponse)
    ensures
        match repacked {
            Some((parts, utilisation)) => {
                &&& r.placement@ == (SheetModel {
                    sheet_index: request.placement.sheet_index,
                    parts: marked(parts@, locked@),
                })
                &&& r.improved
                &&& r.utilisation == utilisation
            },
            None => {
                &&& r.placement == request.placement
                &&& !r.improved
                &&& r.utilisation == utilisation_before
            },
        },
{
    match repacked {
        Some((parts, utilisation)) => RepackSheetResponse {
            placement: SheetPlacementDto {
                sheet_index: request.placement.sheet_index,
                parts: mark_locked(&parts, locked),
            },
            improved: true,
            utilisation,
        },
        None => RepackSheetResponse {
            placement: request.placement,
            improved: false,
            utilisation: utilisation_before,
        },
    }
}

/// A repack leaves every pin in place: a part of the answer is pinned exactly
/// where a part of that id was pinned before.
pub proof fn law_a_repack_keeps_pins(before: Seq<PlacedPartDto>, after: Seq<PlacedPartDto>, i: int)
    requires
        0 <= i < after.len(),
    ensures
        marked(after, locked_ids(before))[i].id == after[i].id,
        marked(after, locked_ids(before))[i].locked <==> exists|k: int|
            0 <= k < before.len() && (#[trigger] before[k]).locked && before[k].id == after[i].id,
{
    lemma_locked_ids(before, after[i].id);
}

proof fn lemma_locked_ids(parts: Seq<PlacedPartDto>, id: usize)
    ensures
        locked_ids(parts).contains(id) <==> exists|k: int|
            0 <= k < parts.len() && (#[trigger] parts[k]).locked && parts[k].id == id,
    decreases parts.len(),
{
    if parts.len() > 0 {
        let rest = parts.drop_last();
        lemma_locked_ids(rest, id);
        let listed = locked_ids(rest);
        if listed.contains(id) {
            let k = choose|k: int| 0 <= k < rest.len() && (#[trigger] rest[k]).locked && rest[k].id == id;
            assert(parts[k].locked && parts[k].id == id);
            let m = choose|m: int| 0 <= m < listed.len() && listed[m] == id;
            assert(locked_ids(parts)[m] == id);
        }
        if parts.last().locked && parts.last().id == id {
            assert(parts[parts.len() - 1].locked);
            assert(locked_ids(parts)[listed.len() as int] == id);
        }
        if exists|k: int| 0 <= k < parts.len() && (#[trigger] parts[k]).locked && parts[k].id == id {
            let k = choose|k: int| 0 <= k < parts.len() && (#[trigger] parts[k]).locked && parts[k].id == id;
            if k < rest.len() {
                assert(rest[k].locked && rest[k].id == id);
            }
        }
        if locked_ids(parts).contains(id) && !listed.contains(id) {
            let m = choose|m: int| 0 <= m < locked_ids(parts).len() && locked_ids(parts)[m] == id;
            if m < listed.len() {
                assert(listed[m] == id);
            }
        }
    }
}

// --- what the requests promise --------------------------------------------

proof fn lemma_sheet_problem(placements: Seq<SheetPlacementDto>, usable: Seq<bool>)
    ensures
        sheet_problem(sheets_view(placements), usable) is None <==> forall|n: int|
            0 <= n < placements.len() ==> (#[trigger] placements[n]).sheet_index < usable.len()
                && usable[placements[n].sheet_index as int],
    decreases placements.len(),
{
    if placements.len() > 0 {
        let rest = placements.drop_last();
        lemma_sheet_problem(rest, usable);
        assert(sheets_view(placements).drop_last() =~= sheets_view(rest));
        assert(placements[placements.len() - 1] == placements.last());
        assert forall|n: int| 0 <= n < rest.len() implies #[trigger] rest[n] == placements[n] by {}
        if sheet_problem(sheets_view(placements), usable) is None {
            assert forall|n: int| 0 <= n < placements.len() implies (
            #[trigger] placements[n]).sheet_index < usable.len()
                && usable[placements[n].sheet_index as int] by {
                if n < rest.len() {
                    assert(rest[n].sheet_index < usable.len());
                }
            }
        }
        if forall|n: int|
            0 <= n < placements.len() ==> (#[trigger] placements[n]).sheet_index < usable.len()
                && usable[placements[n].sheet_index as int] {
            assert forall|n: int| 0 <= n < rest.len() implies (#[trigger] rest[n]).sheet_index
                < usable.len() && usable[rest[n].sheet_index as int] by {
                assert(placements[n].sheet_index < usable.len());
            }
        }
    }
}

/// A check looks at every sheet of the result, each against the sheet it lies
/// on: the `n`th sheet that is looked at has the place of the `n`th sheet of the
/// result, and the parts of that sheet that have a shape, where they lie.
pub proof fn law_each_sheet_is_checked_as_itself(
    request: &AuditRequest,
    unusable_part: Option<usize>,
    sheets_usable: &Vec<bool>,
    sheets: Vec<SheetPlacementDto>,
    n: int,
)
    requires
        call_ensures(
            audit_sheets,
            (request, unusable_part, sheets_usable),
            Ok::<Vec<SheetPlacementDto>, String>(sheets),
        ),
        0 <= n < request.placements@.len(),
    ensures
        sheets@.len() == request.placements@.len(),
        sheets@[n].sheet_index == request.placements@[n].sheet_index,
        sheets@[n].parts@ == request.placements@[n].parts@.filter(
            |p: PlacedPartDto| request.parts_by_id@.contains_key(p.id),
        ),
{
    let a = sheets_view(sheets@);
    let b = known_on_sheets(sheets_view(request.placements@), request.parts_by_id@.dom());
    assert(a.len() == b.len());
    assert(a[n] == b[n]);
    assert(a[n].sheet_index == sheets@[n].sheet_index && a[n].parts == sheets@[n].parts@);
    let f = |p: PlacedPartDto| request.parts_by_id@.dom().contains(p.id);
    let g = |p: PlacedPartDto| request.parts_by_id@.contains_key(p.id);
    assert(f =~= g);
}

/// Where every part of a sheet has a shape, all of them are checked.
pub proof fn law_no_known_part_escapes_the_check(
    request: &AuditRequest,
    unusable_part: Option<usize>,
    sheets_usable: &Vec<bool>,
    sheets: Vec<SheetPlacementDto>,
    n: int,
    i: int,
)
    requires
        call_ensures(
            audit_sheets,
            (request, unusable_part, sheets_usable),
            Ok::<Vec<SheetPlacementDto>, String>(sheets),
        ),
        0 <= n < request.placements@.len(),
        0 <= i < request.placements@[n].parts@.len(),
        request.parts_by_id@.contains_key(request.placements@[n].parts@[i].id),
    ensures
        sheets@[n].parts@.contains(request.placements@[n].parts@[i]),
{
    law_each_sheet_is_checked_as_itself(request, unusable_part, sheets_usable, sheets, n);
    request.placements@[n].parts@.lemma_filter_contains(
        |p: PlacedPartDto| request.parts_by_id@.contains_key(p.id),
        i,
    );
}

/// A result is checked exactly where its settings are sound, padding leaves
/// something of every part, and each of its sheets was supplied and padding
/// leaves something of it.
pub proof fn law_a_sound_result_is_checked(
    request: &AuditRequest,
    unusable_part: Option<usize>,
    sheets_usable: &Vec<bool>,
    settings: Result<(), String>,
    r: Result<Vec<SheetPlacementDto>, String>,
)
    requires
        call_ensures(validate_nest_config, (&request.config,), settings),
        call_ensures(audit_sheets, (request, unusable_part, sheets_usable), r),
    ensures
        r is Ok <==> {
            &&& settings is Ok
            &&& unusable_part is None
            &&& forall|n: int|
                0 <= n < request.placements@.len() ==> (
                #[trigger] request.placements@[n]).sheet_index < sheets_usable@.len()
                    && sheets_usable@[request.placements@[n].sheet_index as int]
        },
        settings is Err ==> r is Err && r->Err_0@ == settings->Err_0@,
{
    lemma_sheet_problem(request.placements@, sheets_usable@);
}

proof fn lemma_supplied(placements: Seq<SheetPlacementDto>, sheets: nat)
    ensures
        supplied(sheets_view(placements), sheets) == sheets_view(
            placements.filter(|s: SheetPlacementDto| s.sheet_index < sheets),
        ),
    decreases placements.len(),
{
    reveal(Seq::filter);
    let kept = |s: SheetPlacementDto| s.sheet_index < sheets;
    if placements.len() == 0 {
        assert(supplied(sheets_view(placements), sheets) =~= sheets_view(placements.filter(kept)));
    } else {
        let rest = placements.drop_last();
        lemma_supplied(rest, sheets);
        assert(sheets_view(placements).drop_last() =~= sheets_view(rest));
        assert(supplied(sheets_view(placements), sheets) =~= sheets_view(placements.filter(kept)));
    }
}

/// Offcuts are looked for on every sheet of the result that was supplied, each
/// on the sheet it is: the `k`th sheet that is looked at has the place of the
/// `k`th such sheet of the result, and its parts that have a shape.
pub proof fn law_offcuts_are_looked_for_on_the_sheet_itself(
    request: &RemnantRequest,
    settings: Result<(), String>,
    r: Result<Vec<SheetPlacementDto>, String>,
    k: int,
)
    requires
        call_ensures(validate_nest_config, (&request.config,), settings),
        call_ensures(remnant_sheets, (request,), r),
    ensures
        r is Ok <==> settings is Ok,
        r is Err ==> r->Err_0@ == settings->Err_0@,
        r matches Ok(sheets) ==> {
            let given = request.placements@.filter(
                |s: SheetPlacementDto| s.sheet_index < request.sheets@.len(),
            );
            &&& sheets@.len() == given.len()
            &&& 0 <= k < given.len() ==> {
                &&& sheets@[k].sheet_index == given[k].sheet_index
                &&& sheets@[k].sheet_index < request.sheets@.len()
                &&& sheets@[k].parts@ == given[k].parts@.filter(
                    |p: PlacedPartDto| request.parts_by_id@.contains_key(p.id),
                )
            }
        },
{
    if r is Ok {
        let sheets = r->Ok_0@;
        let pred = |s: SheetPlacementDto| s.sheet_index < request.sheets@.len();
        let given = request.placements@.filter(pred);
        lemma_supplied(request.placements@, request.sheets@.len());
        let a = sheets_view(sheets);
        let b = known_on_sheets(sheets_view(given), request.parts_by_id@.dom());
        assert(a == b);
        assert(a.len() == sheets.len() && b.len() == given.len());
        if 0 <= k < given.len() {
            request.placements@.lemma_filter_pred(pred, k);
            assert(a[k] == b[k]);
            assert(a[k].sheet_index == sheets[k].sheet_index && a[k].parts == sheets[k].parts@);
            let f = |p: PlacedPartDto| request.parts_by_id@.dom().contains(p.id);
            let g = |p: PlacedPartDto| request.parts_by_id@.contains_key(p.id);
            assert(f =~= g);
        }
    }
}

proof fn lemma_filter_twice(parts: Seq<PlacedPartDto>, id: usize, known: Set<usize>)
    ensures
        known_parts(other_parts(parts, id), known) == parts.filter(
            |p: PlacedPartDto| p.id != id && known.contains(p.id),
        ),
    decreases parts.len(),
{
    reveal(Seq::filter);
    let both = |p: PlacedPartDto| p.id != id && known.contains(p.id);
    if parts.len() == 0 {
        assert(known_parts(other_parts(parts, id), known) =~= parts.filter(both));
    } else {
        let rest = parts.drop_last();
        lemma_filter_twice(rest, id, known);
        if parts.last().id != id {
            assert(other_parts(parts, id).drop_last() =~= other_parts(rest, id));
        }
        assert(known_parts(other_parts(parts, id), known) =~= parts.filter(both));
    }
}

/// A moved part is judged against every other part of its sheet that has a
/// shape, each where it lies, exactly where its settings are sound, padding
/// leaves something of the sheet and the parts, and the part has a shape.
pub proof fn law_a_moved_part_keeps_clear_of_the_others(
    request: &ValidatePlacementRequest,
    sheet_usable: bool,
    parts_usable: bool,
    settings: Result<(), String>,
    r: Result<Vec<PlacedPartDto>, String>,
)
    requires
        call_ensures(validate_nest_config, (&request.config,), settings),
        call_ensures(move_obstacles, (request, sheet_usable, parts_usable), r),
    ensures
        r is Ok <==> settings is Ok && sheet_usable && parts_usable
            && request.parts_by_id@.contains_key(request.moved_id),
        settings is Err ==> r is Err && r->Err_0@ == settings->Err_0@,
        r matches Ok(others) ==> others@ == request.placement.parts@.filter(
            |p: PlacedPartDto|
                p.id != request.moved_id && request.parts_by_id@.contains_key(p.id),
        ),
{
    let known = request.parts_by_id@.dom();
    lemma_filter_twice(request.placement.parts@, request.moved_id, known);
    let f = |p: PlacedPartDto| p.id != request.moved_id && known.contains(p.id);
    let g = |p: PlacedPartDto|
        p.id != request.moved_id && request.parts_by_id@.contains_key(p.id);
    assert(f =~= g);
}

/// A sheet is repacked exactly where it has parts, its settings are sound, and
/// padding leaves something of it and of them; and the parts that must stay are
/// the pinned ones, each of them and no other.
pub proof fn law_a_repack_holds_on_to_the_pinned(
    request: &RepackSheetRequest,
    sheet_usable: bool,
    parts_usable: bool,
    settings: Result<(), String>,
    r: Result<Vec<usize>, String>,
    id: usize,
)
    requires
        call_ensures(validate_nest_config, (&request.config,), settings),
        call_ensures(prepare_repack, (request, sheet_usable, parts_usable), r),
    ensures
        r is Ok <==> request.placement.parts@.len() > 0 && settings is Ok && sheet_usable
            && parts_usable,
        r matches Ok(locked) ==> (locked@.contains(id) <==> exists|k: int|
            0 <= k < request.placement.parts@.len() && (
            #[trigger] request.placement.parts@[k]).locked && request.placement.parts@[k].id
                == id),
{
    lemma_locked_ids(request.placement.parts@, id);
}

/// What the engine found is answered as it is: the same parts at the same places
/// and rotations, on the sheet that was asked about, pinned where they were told
/// to be. Where it found nothing, the sheet is answered as it was.
pub proof fn law_a_repack_answers_what_was_found(
    request: RepackSheetRequest,
    repacked: Option<(Vec<PlacedPartDto>, Scalar)>,
    locked: &Vec<usize>,
    before: Scalar,
    r: RepackSheetResponse,
)
    requires
        call_ensures(repack_response, (request, repacked, locked, before), r),
    ensures
        r.placement.sheet_index == request.placement.sheet_index,
        r.improved == (repacked is Some),
        repacked is None ==> r.placement.parts@ == request.placement.parts@ && r.utilisation
            == before,
        repacked matches Some((parts, full)) ==> {
            &&& r.utilisation == full
            &&& r.placement.parts@.len() == parts@.len()
            &&& forall|i: int|
                0 <= i < parts@.len() ==> {
                    let part = #[trigger] r.placement.parts@[i];
                    &&& part.id == parts@[i].id
                    &&& part.x == parts@[i].x
                    &&& part.y == parts@[i].y
                    &&& part.rotation == parts@[i].rotation
                    &&& part.locked <==> locked@.contains(parts@[i].id)
                }
        },
{
    if let Some((parts, full)) = repacked {
        assert(r.placement@.parts == marked(parts@, locked@));
        assert(r.placement@.parts == r.placement.parts@);
        assert(r.placement@.sheet_index == r.placement.sheet_index);
    }
}

/// Offcuts come out as they went in, each of them, the largest first.
pub proof fn law_offcuts_come_largest_first(given: Vec<RemnantDto>, r: Vec<RemnantDto>)
    requires
        call_ensures(order_remnants, (given,), r),
    ensures
        r@.len() == given@.len(),
        forall|i: int, j: int|
            0 <= i < j < r@.len() ==> (#[trigger] r@[j]).area.total_rank() <= (
            #[trigger] r@[i]).area.total_rank(),
        forall|i: int| 0 <= i < r@.len() ==> given@.contains(#[trigger] r@[i]),
        forall|k: int| 0 <= k < given@.len() ==> r@.contains(#[trigger] given@[k]),
{
    let places = choose|places: Seq<int>|
        {
            &&& places.len() == r@.len() == given@.len()
            &&& places.no_duplicates()
            &&& forall|i: int|
                0 <= i < places.len() ==> 0 <= (#[trigger] places[i]) < given@.len() && r@[i]
                    == given@[places[i]]
            &&& forall|i: int, j: int|
                0 <= i < j < places.len() && r@[i].area.total_rank() == r@[j].area.total_rank()
                    ==> (#[trigger] places[i]) < (#[trigger] places[j])
        };
    assert forall|i: int| 0 <= i < r@.len() implies given@.contains(#[trigger] r@[i]) by {
        assert(0 <= places[i] < given@.len());
    }
    let all = vstd::set_lib::set_int_range(0, given@.len() as int);
    vstd::set_lib::lemma_int_range(0, given@.len() as int);
    places.unique_seq_to_set();
    vstd::seq_lib::seq_to_set_is_finite(places);
    assert(places.to_set().subset_of(all));
    vstd::set_lib::lemma_subset_equality(places.to_set(), all);
    assert forall|k: int| 0 <= k < given@.len() implies r@.contains(#[trigger] given@[k]) by {
        assert(all.contains(k));
        assert(places.to_set().contains(k));
        let i = choose|i: int| 0 <= i < places.len() && places[i] == k;
        assert(r@[i] == given@[k]);
    }
}

/// Parts are marked as pinned exactly where their ids are, and nothing else of
/// them changes.
pub proof fn law_marking_pins_only_the_pinned(
    parts: &Vec<PlacedPartDto>,
    locked: &Vec<usize>,
    r: Vec<PlacedPartDto>,
    i: int,
)
    requires
        call_ensures(mark_locked, (parts, locked), r),
    ensures
        r@.len() == parts@.len(),
        0 <= i < parts@.len() ==> {
            &&& r@[i].id == parts@[i].id
            &&& r@[i].x == parts@[i].x
            &&& r@[i].y == parts@[i].y
            &&& r@[i].rotation == parts@[i].rotation
            &&& r@[i].locked <==> locked@.contains(parts@[i].id)
        },
{
}

/// A repack is sound exactly where the sheet has parts and its settings are
/// sound; and it is told which of the two is wrong.
pub proof fn law_a_sound_repack_is_accepted(
    request: &RepackSheetRequest,
    settings: Result<(), String>,
    r: Result<(), String>,
)
    requires
        call_ensures(validate_nest_config, (&request.config,), settings),
        call_ensures(validate_repack, (request,), r),
    ensures
        r is Ok <==> request.placement.parts@.len() > 0 && settings is Ok,
        request.placement.parts@.len() == 0 ==> r is Err && r->Err_0@
            == "sheet has no parts to repack"@,
        request.placement.parts@.len() > 0 && settings is Err ==> r is Err && r->Err_0@
            == settings->Err_0@,
{
}

/// A refused request is told why: what is wrong with its settings before
/// anything else, then the sheet, then the parts, and then the part itself.
pub proof fn law_a_refused_move_is_told_why(
    request: &ValidatePlacementRequest,
    sheet_usable: bool,
    parts_usable: bool,
    settings: Result<(), String>,
    message: String,
)
    requires
        call_ensures(validate_nest_config, (&request.config,), settings),
        call_ensures(
            move_obstacles,
            (request, sheet_usable, parts_usable),
            Err::<Vec<PlacedPartDto>, String>(message),
        ),
    ensures
        settings is Err ==> message@ == settings->Err_0@,
        settings is Ok && !sheet_usable ==> message@
            == "margin/spacing leaves the sheet with no usable area"@,
        settings is Ok && sheet_usable && !parts_usable ==> message@
            == "spacing leaves a part with no usable outline"@,
        settings is Ok && sheet_usable && parts_usable ==> message@ == "unknown part id "@
            + decimal(request.moved_id as nat),
{
}

/// A refused repack is told why: that there is nothing on the sheet, what is
/// wrong with its settings, or that padding leaves nothing of the sheet or of a
/// part.
pub proof fn law_a_refused_repack_is_told_why(
    request: &RepackSheetRequest,
    sheet_usable: bool,
    parts_usable: bool,
    settings: Result<(), String>,
    message: String,
)
    requires
        call_ensures(validate_nest_config, (&request.config,), settings),
        call_ensures(
            prepare_repack,
            (request, sheet_usable, parts_usable),
            Err::<Vec<usize>, String>(message),
        ),
    ensures
        ({
            let filled = request.placement.parts@.len() > 0;
            &&& !filled ==> message@ == "sheet has no parts to repack"@
            &&& filled && settings is Err ==> message@ == settings->Err_0@
            &&& filled && settings is Ok && !sheet_usable ==> message@
                == "margin/spacing leaves the sheet with no usable area"@
            &&& filled && settings is Ok && sheet_usable ==> message@
                == "spacing leaves a part with no usable outline"@
        }),
{
}

proof fn lemma_first_wrong_sheet(
    placements: Seq<SheetPlacementDto>,
    usable: Seq<bool>,
    n: int,
)
    requires
        0 <= n < placements.len(),
        forall|i: int|
            0 <= i < n ==> (#[trigger] placements[i]).sheet_index < usable.len()
                && usable[placements[i].sheet_index as int],
        placements[n].sheet_index >= usable.len() || !usable[placements[n].sheet_index as int],
    ensures
        placements[n].sheet_index >= usable.len() ==> sheet_problem(
            sheets_view(placements),
            usable,
        ) == Some(
            "placement references sheet "@ + decimal(placements[n].sheet_index as nat)
                + " which wasn't supplied"@,
        ),
        placements[n].sheet_index < usable.len() ==> sheet_problem(
            sheets_view(placements),
            usable,
        ) == Some("margin/spacing leaves the sheet with no usable area"@),
    decreases placements.len(),
{
    let rest = placements.drop_last();
    assert(sheets_view(placements).drop_last() =~= sheets_view(rest));
    if n < rest.len() {
        assert(rest[n] == placements[n]);
        assert forall|i: int| 0 <= i < n implies (#[trigger] rest[i]).sheet_index < usable.len()
            && usable[rest[i].sheet_index as int] by {
            assert(placements[i].sheet_index < usable.len());
        }
        lemma_first_wrong_sheet(rest, usable, n);
    } else {
        lemma_sheet_problem(rest, usable);
        assert forall|i: int| 0 <= i < rest.len() implies (#[trigger] rest[i]).sheet_index
            < usable.len() && usable[rest[i].sheet_index as int] by {
            assert(placements[i].sheet_index < usable.len());
        }
        assert(placements.last() == placements[n]);
    }
}

/// A refused check is told why: what is wrong with the settings, then the part
/// of which padding leaves nothing, then the first sheet that was not supplied
/// or of which padding leaves nothing.
pub proof fn law_a_refused_check_is_told_why(
    request: &AuditRequest,
    unusable_part: Option<usize>,
    sheets_usable: &Vec<bool>,
    settings: Result<(), String>,
    message: String,
    n: int,
)
    requires
        call_ensures(validate_nest_config, (&request.config,), settings),
        call_ensures(
            audit_sheets,
            (request, unusable_part, sheets_usable),
            Err::<Vec<SheetPlacementDto>, String>(message),
        ),
        0 <= n < request.placements@.len(),
        forall|i: int|
            0 <= i < n ==> (#[trigger] request.placements@[i]).sheet_index < sheets_usable@.len()
                && sheets_usable@[request.placements@[i].sheet_index as int],
        request.placements@[n].sheet_index >= sheets_usable@.len()
            || !sheets_usable@[request.placements@[n].sheet_index as int],
    ensures
        settings is Err ==> message@ == settings->Err_0@,
        settings is Ok && unusable_part is Some ==> message@ == "spacing leaves part "@ + decimal(
            unusable_part->Some_0 as nat,
        ) + " with no usable outline"@,
        settings is Ok && unusable_part is None && request.placements@[n].sheet_index
            >= sheets_usable@.len() ==> message@ == "placement references sheet "@ + decimal(
            request.placements@[n].sheet_index as nat,
        ) + " which wasn't supplied"@,
        settings is Ok && unusable_part is None && request.placements@[n].sheet_index
            < sheets_usable@.len() ==> message@
            == "margin/spacing leaves the sheet with no usable area"@,
{
    lemma_first_wrong_sheet(request.placements@, sheets_usable@, n);
}

} // verus!
