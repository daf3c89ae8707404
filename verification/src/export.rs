//! Laying out a result for a file: which shape goes where on which sheet, and
//! which parts were never placed.

use std::collections::{HashMap, HashSet};
use vstd::prelude::*;
use crate::order::sort_ids;
use crate::placement::{sheets_view, PlacedPartDto, SheetModel, SheetPlacementDto};
use crate::scalar::Scalar;
use crate::shape::PolygonDto;
use crate::text::{decimal, decimal_text};

verus! {

broadcast use vstd::std_specs::hash::group_hash_axioms;

/// What a result can be written out as.
#[derive(Clone, Copy, PartialEq, Eq, Structural, Debug)]
pub enum ExportFormat {
    Dxf,
    Svg,
    Pdf,
}

/// A format's name on screen and in the log.
pub open spec fn format_label(format: ExportFormat) -> Seq<char> {
    match format {
        ExportFormat::Dxf => "DXF"@,
        ExportFormat::Svg => "SVG"@,
        ExportFormat::Pdf => "PDF REPORT"@,
    }
}

/// A format's file extension.
pub open spec fn format_ext(format: ExportFormat) -> Seq<char> {
    match format {
        ExportFormat::Dxf => "dxf"@,
        ExportFormat::Svg => "svg"@,
        ExportFormat::Pdf => "pdf"@,
    }
}

impl ExportFormat {
    pub const ALL: [ExportFormat; 3] = [ExportFormat::Dxf, ExportFormat::Svg, ExportFormat::Pdf];

    /// The format's file extension.
    pub fn ext(self) -> (r: &'static str)
        ensures
            r@ == format_ext(self),
    {
        match self {
            ExportFormat::Dxf => "dxf",
            ExportFormat::Svg => "svg",
            ExportFormat::Pdf => "pdf",
        }
    }

    /// The format's name on screen and in the log.
    pub fn label(self) -> (r: &'static str)
        ensures
            r@ == format_label(self),
    {
        match self {
            ExportFormat::Dxf => "DXF",
            ExportFormat::Svg => "SVG",
            ExportFormat::Pdf => "PDF REPORT",
        }
    }
}

/// A result to be written out.
pub struct ExportRequest {
    pub sheets: Vec<PolygonDto>,
    /// Every part copy of the run by its id, placed or not, and the flipped
    /// shapes under the flipped ids.
    pub parts_by_id: HashMap<usize, PolygonDto>,
    pub placements: Vec<SheetPlacementDto>,
    pub sheet_spacing: Scalar,
    pub include_sheet_outline: bool,
    pub include_unplaced: bool,
}

/// A shape at its place on a sheet.
pub struct PlacedShape {
    pub shape: PolygonDto,
    pub x: Scalar,
    pub y: Scalar,
    pub rotation: Scalar,
}

/// A sheet and the shapes on it.
pub struct SheetLayout {
    pub sheet: PolygonDto,
    pub parts: Vec<PlacedShape>,
}

/// What an export draws: the sheets as they were nested, then the copies that
/// were never placed either way round, with their ids.
pub struct ExportPlan {
    pub layouts: Vec<SheetLayout>,
    pub unplaced: Vec<(usize, PolygonDto)>,
}

/// The ids of a list of placed parts.
pub open spec fn ids_of(parts: Seq<PlacedPartDto>) -> Seq<usize> {
    parts.map_values(|p: PlacedPartDto| p.id)
}

/// The ids on a list of sheets, sheet after sheet.
pub open spec fn placed_ids(placements: Seq<SheetModel>) -> Seq<usize>
    decreases placements.len(),
{
    if placements.len() == 0 {
        Seq::empty()
    } else {
        placed_ids(placements.drop_last()) + ids_of(placements.last().parts)
    }
}

/// Whether an id has a shape that is not used up yet.
pub open spec fn is_free(id: usize, known: Set<usize>, used: Seq<usize>) -> bool {
    known.contains(id) && !used.contains(id)
}

/// The first id that names no shape, or one that an earlier part has taken.
pub open spec fn part_problem(
    parts: Seq<PlacedPartDto>,
    known: Set<usize>,
    used: Seq<usize>,
) -> Option<Seq<char>>
    decreases parts.len(),
{
    if parts.len() == 0 {
        None
    } else {
        let earlier = part_problem(parts.drop_last(), known, used);
        if earlier is Some {
            earlier
        } else if !is_free(parts.last().id, known, used + ids_of(parts.drop_last())) {
            Some("placement references unknown part id "@ + decimal(parts.last().id as nat))
        } else {
            None
        }
    }
}

/// The first thing wrong with a list of sheets: a sheet that was not supplied,
/// or a part whose id names no shape or was placed before.
pub open spec fn placement_problem(
    placements: Seq<SheetModel>,
    sheets: nat,
    known: Set<usize>,
) -> Option<Seq<char>>
    decreases placements.len(),
{
    if placements.len() == 0 {
        None
    } else {
        let before = placements.drop_last();
        let sheet = placements.last();
        let earlier = placement_problem(before, sheets, known);
        if earlier is Some {
            earlier
        } else if sheet.sheet_index >= sheets {
            Some(
                "placement references sheet_index "@ + decimal(sheet.sheet_index as nat)
                    + " out of range"@,
            )
        } else {
            part_problem(sheet.parts, known, placed_ids(before))
        }
    }
}

/// The first thing wrong with an export request.
pub open spec fn export_problem(request: ExportRequest) -> Option<Seq<char>> {
    if request.sheet_spacing.below(Scalar::zero()) {
        Some("sheet spacing must be >= 0"@)
    } else {
        placement_problem(
            sheets_view(request.placements@),
            request.sheets@.len(),
            request.parts_by_id@.dom(),
        )
    }
}

/// Whether drawn shapes are the shapes of the placed parts, each at its place.
pub open spec fn draws_parts(
    drawn: Seq<PlacedShape>,
    parts: Seq<PlacedPartDto>,
    shapes: Map<usize, PolygonDto>,
) -> bool {
    &&& drawn.len() == parts.len()
    &&& forall|i: int|
        0 <= i < parts.len() ==> {
            &&& shapes.contains_key((#[trigger] parts[i]).id)
            &&& drawn[i].shape == shapes[parts[i].id]
            &&& drawn[i].x == parts[i].x
            &&& drawn[i].y == parts[i].y
            &&& drawn[i].rotation == parts[i].rotation
        }
}

/// Whether layouts draw a list of sheets: each on its own outline, with its
/// own parts.
pub open spec fn draws_sheets(
    layouts: Seq<SheetLayout>,
    placements: Seq<SheetModel>,
    sheets: Seq<PolygonDto>,
    shapes: Map<usize, PolygonDto>,
) -> bool {
    &&& layouts.len() == placements.len()
    &&& forall|i: int|
        0 <= i < placements.len() ==> {
            &&& (#[trigger] placements[i]).sheet_index < sheets.len()
            &&& layouts[i].sheet@ == sheets[placements[i].sheet_index as int]@
            &&& draws_parts(layouts[i].parts@, placements[i].parts, shapes)
        }
}

/// Whether an id stands for a part copy that was never placed, neither as it is
/// nor flipped. A flipped shape, told by `bit`, is a copy's other side and no
/// copy of its own.
pub open spec fn is_left(id: usize, known: Set<usize>, placed: Seq<usize>, bit: usize) -> bool {
    &&& known.contains(id)
    &&& id & bit == 0
    &&& !placed.contains(id)
    &&& !placed.contains(id ^ bit)
}

/// Whether a list holds exactly the copies that were never placed, in order of
/// their ids.
pub open spec fn holds_leftovers(
    unplaced: Seq<(usize, PolygonDto)>,
    placed: Seq<usize>,
    shapes: Map<usize, PolygonDto>,
    bit: usize,
) -> bool {
    &&& forall|i: int, j: int|
        0 <= i < j < unplaced.len() ==> (#[trigger] unplaced[i]).0 < (#[trigger] unplaced[j]).0
    &&& forall|i: int|
        0 <= i < unplaced.len() ==> {
            &&& is_left((#[trigger] unplaced[i]).0, shapes.dom(), placed, bit)
            &&& unplaced[i].1 == shapes[unplaced[i].0]
        }
    &&& forall|id: usize|
        is_left(id, shapes.dom(), placed, bit) ==> exists|i: int|
            0 <= i < unplaced.len() && (#[trigger] unplaced[i]).0 == id
}

/// Takes the shapes of one sheet's parts out of the map, in order, and notes
/// their ids.
fn take_parts(
    parts: &Vec<PlacedPartDto>,
    parts_by_id: &mut HashMap<usize, PolygonDto>,
    placed: &mut HashSet<usize>,
    shapes: Ghost<Map<usize, PolygonDto>>,
    used: Ghost<Seq<usize>>,
) -> (r: Result<Vec<PlacedShape>, String>)
    requires
        old(placed)@ == used@.to_set(),
        old(parts_by_id)@ == shapes@.remove_keys(used@.to_set()),
    ensures
        match r {
            Ok(drawn) => {
                &&& part_problem(parts@, shapes@.dom(), used@) is None
                &&& draws_parts(drawn@, parts@, shapes@)
                &&& final(placed)@ == (used@ + ids_of(parts@)).to_set()
                &&& final(parts_by_id)@ == shapes@.remove_keys((used@ + ids_of(parts@)).to_set())
            },
            Err(message) => part_problem(parts@, shapes@.dom(), used@) == Some(message@),
        },
{
    let mut drawn: Vec<PlacedShape> = Vec::new();
    let mut i: usize = 0;
    assert(used@ + ids_of(parts@.subrange(0, 0)) == used@);
    while i < parts.len()
        invariant
            i <= parts.len(),
            part_problem(parts@.subrange(0, i as int), shapes@.dom(), used@) is None,
            draws_parts(drawn@, parts@.subrange(0, i as int), shapes@),
            placed@ == (used@ + ids_of(parts@.subrange(0, i as int))).to_set(),
            parts_by_id@ == shapes@.remove_keys(
                (used@ + ids_of(parts@.subrange(0, i as int))).to_set(),
            ),
        decreases parts.len() - i,
    {
        let part: PlacedPartDto = parts[i];
        let ghost done = parts@.subrange(0, i as int);
        let ghost next = parts@.subrange(0, i + 1);
        let ghost taken = used@ + ids_of(done);
        proof {
            assert(next.drop_last() == done);
            assert(next.last() == part);
            assert(ids_of(next) == ids_of(done).push(part.id));
            assert(used@ + ids_of(next) == taken.push(part.id));
            assert(taken.to_set().contains(part.id) == taken.contains(part.id));
        }
        match parts_by_id.remove(&part.id) {
            Some(shape) => {
                placed.insert(part.id);
                drawn.push(PlacedShape { shape, x: part.x, y: part.y, rotation: part.rotation });
            },
            None => {
                let mut message = "placement references unknown part id ".to_owned();
                message.append(decimal_text(part.id as u64).as_str());
                proof {
                    assert(!is_free(part.id, shapes@.dom(), taken));
                    lemma_first_problem_stands(parts@, i + 1, shapes@.dom(), used@);
                }
                return Err(message);
            },
        }
        proof {
            assert(is_free(part.id, shapes@.dom(), taken));
            assert(taken.push(part.id).to_set() =~= taken.to_set().insert(part.id)) by {
                assert forall|id: usize| taken.push(part.id).contains(id) == (taken.contains(id)
                    || id == part.id) by {
                    if taken.contains(id) {
                        let k = choose|k: int| 0 <= k < taken.len() && taken[k] == id;
                        assert(taken.push(part.id)[k] == id);
                    }
                    assert(taken.push(part.id)[taken.len() as int] == part.id);
                }
            }
            assert(parts_by_id@ =~= shapes@.remove_keys((used@ + ids_of(next)).to_set()));
            assert(draws_parts(drawn@, next, shapes@)) by {
                assert forall|k: int| 0 <= k < next.len() implies {
                    &&& shapes@.contains_key((#[trigger] next[k]).id)
                    &&& drawn@[k].shape == shapes@[next[k].id]
                    &&& drawn@[k].x == next[k].x
                    &&& drawn@[k].y == next[k].y
                    &&& drawn@[k].rotation == next[k].rotation
                } by {
                    if k < i {
                        assert(next[k] == done[k]);
                    }
                }
            }
        }
        i += 1;
    }
    assert(parts@.subrange(0, parts@.len() as int) == parts@);
    Ok(drawn)
}

/// A problem among the first parts is the problem of the whole list.
proof fn lemma_first_problem_stands(
    parts: Seq<PlacedPartDto>,
    upto: int,
    known: Set<usize>,
    used: Seq<usize>,
)
    requires
        0 <= upto <= parts.len(),
        part_problem(parts.subrange(0, upto), known, used) is Some,
    ensures
        part_problem(parts, known, used) == part_problem(parts.subrange(0, upto), known, used),
    decreases parts.len() - upto,
{
    if upto < parts.len() {
        assert(parts.subrange(0, upto + 1).drop_last() == parts.subrange(0, upto));
        lemma_first_problem_stands(parts, upto + 1, known, used);
    } else {
        assert(parts.subrange(0, upto) == parts);
    }
}

/// A problem among the first sheets is the problem of the whole list.
proof fn lemma_first_sheet_problem_stands(
    placements: Seq<SheetModel>,
    upto: int,
    sheets: nat,
    known: Set<usize>,
)
    requires
        0 <= upto <= placements.len(),
        placement_problem(placements.subrange(0, upto), sheets, known) is Some,
    ensures
        placement_problem(placements, sheets, known) == placement_problem(
            placements.subrange(0, upto),
            sheets,
            known,
        ),
    decreases placements.len() - upto,
{
    if upto < placements.len() {
        assert(placements.subrange(0, upto + 1).drop_last() == placements.subrange(0, upto));
        lemma_first_sheet_problem_stands(placements, upto + 1, sheets, known);
    } else {
        assert(placements.subrange(0, upto) == placements);
    }
}

/// The keys of a map in ascending order.
fn sorted_keys(map: &HashMap<usize, PolygonDto>) -> (r: Vec<usize>)
    ensures
        forall|i: int, j: int| 0 <= i < j < r@.len() ==> r@[i] < r@[j],
        forall|id: usize| r@.contains(id) <==> map@.contains_key(id),
{
    let mut keys: Vec<usize> = Vec::new();
    for key in it: map.keys()
        invariant
            keys@.len() == it.index(),
            forall|k: int| 0 <= k < it.index() ==> #[trigger] keys@[k] == *it.seq()[k],
            it.seq() == vstd::std_specs::iter::IteratorSpec::remaining(
                &vstd::std_specs::hash::spec_keys_iter(map),
            ),
    {
        keys.push(*key);
    }
    let ghost all = vstd::std_specs::iter::IteratorSpec::remaining(
                &vstd::std_specs::hash::spec_keys_iter(map),
            );
    proof {
        assert(keys@ =~= all.unref());
        assert(keys@.to_set() == map@.dom());
        assert(keys@.no_duplicates());
    }
    let r = sort_ids(&keys);
    proof {
        keys@.to_multiset_ensures();
        r@.to_multiset_ensures();
        keys@.lemma_multiset_has_no_duplicates();
        r@.lemma_multiset_has_no_duplicates_conv();
        assert forall|id: usize| r@.contains(id) <==> map@.contains_key(id) by {
            assert(keys@.to_multiset().count(id) == r@.to_multiset().count(id));
            assert(keys@.contains(id) <==> keys@.to_set().contains(id));
        }
    }
    r
}

/// Resolves a result's placements into the shapes an export draws.
///
/// Each placed id is taken out of the map as it is drawn. So an id that names no
/// shape is an error, and an id placed twice is the same error at its second
/// place. What is left in the map at the end was never placed, or is the other
/// side of a copy: `mirror_bit` tells a flipped id from the copy's own.
pub fn build_export_layouts(request: ExportRequest, mirror_bit: usize) -> (r: Result<
    ExportPlan,
    String,
>)
    ensures
        match r {
            Ok(plan) => {
                &&& export_problem(request) is None
                &&& draws_sheets(
                    plan.layouts@,
                    sheets_view(request.placements@),
                    request.sheets@,
                    request.parts_by_id@,
                )
                &&& if request.include_unplaced {
                    holds_leftovers(
                        plan.unplaced@,
                        placed_ids(sheets_view(request.placements@)),
                        request.parts_by_id@,
                        mirror_bit,
                    )
                } else {
                    plan.unplaced@.len() == 0
                }
            },
            Err(message) => export_problem(request) == Some(message@),
        },
{
    if request.sheet_spacing.lt(Scalar::zero()) {
        return Err("sheet spacing must be >= 0".to_owned());
    }
    let ghost shapes = request.parts_by_id@;
    let ghost all = sheets_view(request.placements@);
    let include_unplaced = request.include_unplaced;
    let sheets = request.sheets;
    let placements = request.placements;
    let mut parts_by_id = request.parts_by_id;
    let mut placed: HashSet<usize> = HashSet::new();
    let mut layouts: Vec<SheetLayout> = Vec::new();
    let mut i: usize = 0;
    proof {
        assert(all.subrange(0, 0) == Seq::<SheetModel>::empty());
        assert(shapes.remove_keys(Seq::<usize>::empty().to_set()) =~= shapes);
    }
    while i < placements.len()
        invariant
            i <= placements.len(),
            all == sheets_view(placements@),
            export_problem(request) == placement_problem(all, sheets@.len(), shapes.dom()),
            placement_problem(all.subrange(0, i as int), sheets@.len(), shapes.dom()) is None,
            draws_sheets(layouts@, all.subrange(0, i as int), sheets@, shapes),
            placed@ == placed_ids(all.subrange(0, i as int)).to_set(),
            parts_by_id@ == shapes.remove_keys(placed_ids(all.subrange(0, i as int)).to_set()),
        decreases placements.len() - i,
    {
        let ghost done = all.subrange(0, i as int);
        let ghost next = all.subrange(0, i + 1);
        proof {
            assert(next.drop_last() == done);
            assert(next.last() == placements@[i as int]@);
        }
        let index: usize = placements[i].sheet_index;
        if index >= sheets.len() {
            let mut message = "placement references sheet_index ".to_owned();
            message.append(decimal_text(index as u64).as_str());
            message.append(" out of range");
            proof {
                lemma_first_sheet_problem_stands(all, i + 1, sheets@.len(), shapes.dom());
            }
            return Err(message);
        }
        match take_parts(
            &placements[i].parts,
            &mut parts_by_id,
            &mut placed,
            Ghost(shapes),
            Ghost(placed_ids(done)),
        ) {
            Ok(parts) => {
                layouts.push(SheetLayout { sheet: sheets[index].clone(), parts });
            },
            Err(message) => {
                proof {
                    lemma_first_sheet_problem_stands(all, i + 1, sheets@.len(), shapes.dom());
                }
                return Err(message);
            },
        }
        proof {
            assert(draws_sheets(layouts@, next, sheets@, shapes)) by {
                assert forall|k: int| 0 <= k < next.len() implies {
                    &&& (#[trigger] next[k]).sheet_index < sheets@.len()
                    &&& layouts@[k].sheet@ == sheets@[next[k].sheet_index as int]@
                    &&& draws_parts(layouts@[k].parts@, next[k].parts, shapes)
                } by {
                    if k < i {
                        assert(next[k] == done[k]);
                    }
                }
            }
        }
        i += 1;
    }
    assert(all.subrange(0, all.len() as int) == all);
    let mut unplaced: Vec<(usize, PolygonDto)> = Vec::new();
    if include_unplaced {
        let keys = sorted_keys(&parts_by_id);
        let ghost left = parts_by_id@;
        let mut n: usize = 0;
        assert forall|a: int| 0 <= a < keys@.len() implies left.contains_key(
            #[trigger] keys@[a],
        ) by {
            assert(keys@.contains(keys@[a]));
        }
        let ghost used = placed_ids(all);
        assert forall|id: usize| #[trigger] left.contains_key(id) <==> shapes.contains_key(id)
            && !used.contains(id) by {
            assert(used.to_set().contains(id) == used.contains(id));
        }
        while n < keys.len()
            invariant
                n <= keys.len(),
                placed@ == used.to_set(),
                forall|a: int, b: int| 0 <= a < b < keys@.len() ==> keys@[a] < keys@[b],
                forall|id: usize| keys@.contains(id) <==> left.contains_key(id),
                forall|id: usize|
                    #[trigger] left.contains_key(id) ==> shapes.contains_key(id)
                        && !used.contains(id) && left[id] == shapes[id],
                forall|a: int|
                    n <= a < keys@.len() ==> parts_by_id@.contains_key(#[trigger] keys@[a])
                        && parts_by_id@[keys@[a]] == left[keys@[a]],
                forall|i: int, j: int|
                    0 <= i < j < unplaced@.len() ==> (#[trigger] unplaced@[i]).0 < (
                    #[trigger] unplaced@[j]).0,
                forall|i: int|
                    0 <= i < unplaced@.len() ==> {
                        &&& is_left((#[trigger] unplaced@[i]).0, shapes.dom(), used, mirror_bit)
                        &&& unplaced@[i].1 == shapes[unplaced@[i].0]
                        &&& n < keys@.len() ==> unplaced@[i].0 < keys@[n as int]
                    },
                forall|a: int|
                    0 <= a < n && is_left(#[trigger] keys@[a], shapes.dom(), used, mirror_bit)
                        ==> exists|i: int|
                        0 <= i < unplaced@.len() && (#[trigger] unplaced@[i]).0 == keys@[a],
            decreases keys.len() - n,
        {
            let id: usize = keys[n];
            let ghost before = unplaced@;
            proof {
                assert(parts_by_id@.contains_key(keys@[n as int]));
                assert(keys@.contains(keys@[n as int]));
                assert(used.to_set().contains(id ^ mirror_bit) == used.contains(id ^ mirror_bit));
            }
            if id & mirror_bit == 0 && !placed.contains(&(id ^ mirror_bit)) {
                match parts_by_id.remove(&id) {
                    Some(shape) => unplaced.push((id, shape)),
                    None => {
                        assert(false);
                    },
                }
            }
            proof {
                assert forall|i: int| 0 <= i < unplaced@.len() implies {
                    &&& is_left((#[trigger] unplaced@[i]).0, shapes.dom(), used, mirror_bit)
                    &&& unplaced@[i].1 == shapes[unplaced@[i].0]
                    &&& n + 1 < keys@.len() ==> unplaced@[i].0 < keys@[n + 1]
                } by {
                    if i < before.len() {
                        assert(unplaced@[i] == before[i]);
                    } else {
                        assert(left.contains_key(id));
                    }
                    if n + 1 < keys@.len() {
                        assert(keys@[n as int] < keys@[n + 1]);
                    }
                }
                assert forall|a: int| 0 <= a < n + 1 && is_left(
                    #[trigger] keys@[a],
                    shapes.dom(),
                    used,
                    mirror_bit,
                ) implies exists|i: int|
                    0 <= i < unplaced@.len() && (#[trigger] unplaced@[i]).0 == keys@[a] by {
                    if a < n {
                        let i = choose|i: int|
                            0 <= i < before.len() && (#[trigger] before[i]).0 == keys@[a];
                        assert(unplaced@[i] == before[i]);
                    } else {
                        assert(unplaced@[before.len() as int].0 == id);
                    }
                }
            }
            n += 1;
        }
        proof {
            assert forall|id: usize| is_left(id, shapes.dom(), used, mirror_bit) implies exists|
                i: int,
            | 0 <= i < unplaced@.len() && (#[trigger] unplaced@[i]).0 == id by {
                assert(left.contains_key(id));
                assert(keys@.contains(id));
                let a = choose|a: int| 0 <= a < keys@.len() && keys@[a] == id;
                assert(is_left(keys@[a], shapes.dom(), used, mirror_bit));
            }
        }
    }
    Ok(ExportPlan { layouts, unplaced })
}

/// Whether ids are all known and no two are the same.
pub open spec fn distinct_and_known(ids: Seq<usize>, known: Set<usize>) -> bool {
    &&& ids.no_duplicates()
    &&& forall|i: int| 0 <= i < ids.len() ==> known.contains(#[trigger] ids[i])
}

proof fn lemma_distinct_push(ids: Seq<usize>, id: usize, known: Set<usize>)
    ensures
        distinct_and_known(ids.push(id), known) <==> (distinct_and_known(ids, known) && is_free(
            id,
            known,
            ids,
        )),
{
    let more = ids.push(id);
    if distinct_and_known(more, known) {
        assert forall|i: int| 0 <= i < ids.len() implies known.contains(#[trigger] ids[i]) by {
            assert(more[i] == ids[i]);
        }
        assert(more[ids.len() as int] == id);
        if ids.contains(id) {
            let k = choose|k: int| 0 <= k < ids.len() && ids[k] == id;
            assert(more[k] == more[ids.len() as int]);
        }
        assert(ids.no_duplicates()) by {
            assert forall|i: int, j: int|
                0 <= i < ids.len() && 0 <= j < ids.len() && i != j implies ids[i] != ids[j] by {
                assert(more[i] == ids[i] && more[j] == ids[j]);
            }
        }
    }
}

proof fn lemma_parts_distinct(parts: Seq<PlacedPartDto>, known: Set<usize>, used: Seq<usize>)
    requires
        distinct_and_known(used, known),
    ensures
        part_problem(parts, known, used) is None <==> distinct_and_known(
            used + ids_of(parts),
            known,
        ),
    decreases parts.len(),
{
    if parts.len() == 0 {
        assert(used + ids_of(parts) == used);
    } else {
        let rest = parts.drop_last();
        lemma_parts_distinct(rest, known, used);
        assert(used + ids_of(parts) == (used + ids_of(rest)).push(parts.last().id));
        lemma_distinct_push(used + ids_of(rest), parts.last().id, known);
    }
}

proof fn lemma_earlier_sheets_distinct(
    placements: Seq<SheetModel>,
    known: Set<usize>,
)
    requires
        placements.len() > 0,
        distinct_and_known(placed_ids(placements), known),
    ensures
        distinct_and_known(placed_ids(placements.drop_last()), known),
{
    let before = placed_ids(placements.drop_last());
    let all = placed_ids(placements);
    assert forall|i: int| 0 <= i < before.len() implies known.contains(#[trigger] before[i]) by {
        assert(all[i] == before[i]);
    }
    assert forall|i: int, j: int|
        0 <= i < before.len() && 0 <= j < before.len() && i != j implies before[i] != before[j] by {
        assert(all[i] == before[i] && all[j] == before[j]);
    }
}

/// An export is refused exactly where a placement names a sheet that was not
/// supplied, a part that was not supplied, or a part that another placement
/// names too. So every exported part is drawn exactly once.
pub proof fn law_exported_parts_are_drawn_once(
    placements: Seq<SheetModel>,
    sheets: nat,
    known: Set<usize>,
)
    ensures
        placement_problem(placements, sheets, known) is None <==> {
            &&& forall|i: int|
                0 <= i < placements.len() ==> (#[trigger] placements[i]).sheet_index < sheets
            &&& distinct_and_known(placed_ids(placements), known)
        },
    decreases placements.len(),
{
    if placements.len() > 0 {
        let before = placements.drop_last();
        law_exported_parts_are_drawn_once(before, sheets, known);
        assert forall|i: int| 0 <= i < before.len() implies before[i] == placements[i] by {}
        let in_range = forall|i: int|
            0 <= i < placements.len() ==> (#[trigger] placements[i]).sheet_index < sheets;
        let before_in_range = forall|i: int|
            0 <= i < before.len() ==> (#[trigger] before[i]).sheet_index < sheets;
        assert(in_range <==> (before_in_range && placements.last().sheet_index < sheets)) by {
            if before_in_range && placements.last().sheet_index < sheets {
                assert forall|i: int| 0 <= i < placements.len() implies (
                #[trigger] placements[i]).sheet_index < sheets by {
                    if i < before.len() {
                        assert(before[i] == placements[i]);
                    }
                }
            }
            if in_range {
                assert(placements[placements.len() - 1].sheet_index < sheets);
                assert forall|i: int| 0 <= i < before.len() implies (
                #[trigger] before[i]).sheet_index < sheets by {
                    assert(placements[i] == before[i]);
                }
            }
        }
        if distinct_and_known(placed_ids(placements), known) {
            lemma_earlier_sheets_distinct(placements, known);
        }
        if distinct_and_known(placed_ids(before), known) {
            lemma_parts_distinct(placements.last().parts, known, placed_ids(before));
        }
    }
}

/// Every part copy of a run is either drawn on a sheet, as it is or flipped, or
/// among the leftovers, never both. A flipped shape is never a leftover.
pub proof fn law_exported_parts_are_complete(
    unplaced: Seq<(usize, PolygonDto)>,
    placements: Seq<SheetModel>,
    shapes: Map<usize, PolygonDto>,
    bit: usize,
    id: usize,
)
    requires
        holds_leftovers(unplaced, placed_ids(placements), shapes, bit),
        shapes.contains_key(id),
    ensures
        (exists|i: int| 0 <= i < unplaced.len() && (#[trigger] unplaced[i]).0 == id) <==> {
            &&& id & bit == 0
            &&& !placed_ids(placements).contains(id)
            &&& !placed_ids(placements).contains(id ^ bit)
        },
{
    assert(is_left(id, shapes.dom(), placed_ids(placements), bit) <==> {
        &&& id & bit == 0
        &&& !placed_ids(placements).contains(id)
        &&& !placed_ids(placements).contains(id ^ bit)
    });
}

/// A nest that placed every part copy, whichever way round, leaves nothing.
pub proof fn law_a_full_nest_leaves_nothing(
    unplaced: Seq<(usize, PolygonDto)>,
    placements: Seq<SheetModel>,
    shapes: Map<usize, PolygonDto>,
    bit: usize,
)
    requires
        holds_leftovers(unplaced, placed_ids(placements), shapes, bit),
        forall|id: usize|
            #[trigger] shapes.contains_key(id) && id & bit == 0 ==> placed_ids(
                placements,
            ).contains(id) || placed_ids(placements).contains(id ^ bit),
    ensures
        unplaced.len() == 0,
{
    if unplaced.len() > 0 {
        let id = unplaced[0].0;
        assert(is_left(id, shapes.dom(), placed_ids(placements), bit));
        assert(shapes.contains_key(id));
    }
}

// --- what an export promises ----------------------------------------------

/// Whether a part of an id lies on one of some sheets.
pub open spec fn lies_on(placements: Seq<SheetPlacementDto>, id: usize) -> bool {
    exists|n: int, i: int|
        0 <= n < placements.len() && 0 <= i < placements[n].parts@.len()
            && #[trigger] placements[n].parts@[i].id == id
}

/// Whether no two parts on some sheets have the same id.
pub open spec fn lies_once(placements: Seq<SheetPlacementDto>) -> bool {
    forall|n: int, i: int, m: int, j: int|
        0 <= n < placements.len() && 0 <= i < placements[n].parts@.len() && 0 <= m
            < placements.len() && 0 <= j < placements[m].parts@.len() && (
        #[trigger] placements[n].parts@[i]).id == (#[trigger] placements[m].parts@[j]).id ==> n
            == m && i == j
}

proof fn lemma_placed_ids(placements: Seq<SheetPlacementDto>, id: usize)
    ensures
        placed_ids(sheets_view(placements)).contains(id) <==> lies_on(placements, id),
    decreases placements.len(),
{
    if placements.len() > 0 {
        let rest = placements.drop_last();
        let last = placements.len() - 1;
        let all = placed_ids(sheets_view(placements));
        let before = placed_ids(sheets_view(rest));
        let here = ids_of(placements.last().parts@);
        assert(sheets_view(placements).drop_last() =~= sheets_view(rest));
        assert(all == before + here);
        lemma_placed_ids(rest, id);
        if lies_on(placements, id) {
            let (n, i) = choose|n: int, i: int|
                0 <= n < placements.len() && 0 <= i < placements[n].parts@.len()
                    && #[trigger] placements[n].parts@[i].id == id;
            if n < last {
                assert(rest[n].parts@[i].id == id);
                let k = choose|k: int| 0 <= k < before.len() && before[k] == id;
                assert(all[k] == id);
            } else {
                assert(all[before.len() + i] == id);
            }
        }
        if all.contains(id) {
            let k = choose|k: int| 0 <= k < all.len() && all[k] == id;
            if k < before.len() {
                assert(before[k] == id);
                let (n, i) = choose|n: int, i: int|
                    0 <= n < rest.len() && 0 <= i < rest[n].parts@.len()
                        && #[trigger] rest[n].parts@[i].id == id;
                assert(placements[n].parts@[i].id == id);
            } else {
                assert(placements[last].parts@[k - before.len()].id == id);
            }
        }
    }
}

proof fn lemma_placed_once(placements: Seq<SheetPlacementDto>)
    ensures
        placed_ids(sheets_view(placements)).no_duplicates() <==> lies_once(placements),
    decreases placements.len(),
{
    if placements.len() > 0 {
        let rest = placements.drop_last();
        let last = placements.len() - 1;
        let all = placed_ids(sheets_view(placements));
        let before = placed_ids(sheets_view(rest));
        let parts = placements.last().parts@;
        assert(sheets_view(placements).drop_last() =~= sheets_view(rest));
        assert(all == before + ids_of(parts));
        lemma_placed_once(rest);
        if all.no_duplicates() {
            assert forall|a: int, b: int|
                0 <= a < before.len() && 0 <= b < before.len() && a != b implies before[a]
                != before[b] by {
                assert(all[a] == before[a] && all[b] == before[b]);
            }
            assert forall|n: int, i: int, m: int, j: int|
                0 <= n < placements.len() && 0 <= i < placements[n].parts@.len() && 0 <= m
                    < placements.len() && 0 <= j < placements[m].parts@.len() && (
                #[trigger] placements[n].parts@[i]).id == (
                #[trigger] placements[m].parts@[j]).id implies n == m && i == j by {
                let id = placements[n].parts@[i].id;
                if n < last && m < last {
                    assert(rest[n].parts@[i].id == rest[m].parts@[j].id);
                } else if n == last && m == last {
                    assert(all[before.len() + i] == all[before.len() + j]);
                } else {
                    if n < last {
                        assert(rest[n].parts@[i].id == id);
                        lemma_placed_ids(rest, id);
                        let k = choose|k: int| 0 <= k < before.len() && before[k] == id;
                        assert(all[k] == all[before.len() + j]);
                    } else {
                        assert(rest[m].parts@[j].id == id);
                        lemma_placed_ids(rest, id);
                        let k = choose|k: int| 0 <= k < before.len() && before[k] == id;
                        assert(all[k] == all[before.len() + i]);
                    }
                }
            }
        }
        if lies_once(placements) {
            assert(lies_once(rest)) by {
                assert forall|n: int, i: int, m: int, j: int|
                    0 <= n < rest.len() && 0 <= i < rest[n].parts@.len() && 0 <= m < rest.len()
                        && 0 <= j < rest[m].parts@.len() && (#[trigger] rest[n].parts@[i]).id == (
                    #[trigger] rest[m].parts@[j]).id implies n == m && i == j by {
                    assert(placements[n].parts@[i].id == placements[m].parts@[j].id);
                }
            }
            assert forall|a: int, b: int|
                0 <= a < all.len() && 0 <= b < all.len() && a != b implies all[a] != all[b] by {
                if a < before.len() && b < before.len() {
                    assert(before[a] != before[b]);
                } else if a >= before.len() && b >= before.len() {
                    assert(placements[last].parts@[a - before.len()].id
                        != placements[last].parts@[b - before.len()].id);
                } else {
                    let x = if a < before.len() { a } else { b };
                    let y = if a < before.len() { b } else { a };
                    if all[x] == all[y] {
                        assert(before.contains(before[x]));
                        lemma_placed_ids(rest, all[x]);
                        let (n, i) = choose|n: int, i: int|
                            0 <= n < rest.len() && 0 <= i < rest[n].parts@.len()
                                && #[trigger] rest[n].parts@[i].id == all[x];
                        assert(placements[n].parts@[i].id
                            == placements[last].parts@[y - before.len()].id);
                    }
                }
            }
        }
    }
}

/// An exported part is drawn where it was placed. The `n`th layout is the `n`th
/// sheet of the result on that sheet's own outline, and the `i`th shape on it is
/// the shape of the `i`th part there, at that part's x and y and at its
/// rotation.
pub proof fn law_every_part_is_drawn_where_it_was_placed(
    request: ExportRequest,
    bit: usize,
    plan: ExportPlan,
    n: int,
    i: int,
)
    requires
        call_ensures(build_export_layouts, (request, bit), Ok::<ExportPlan, String>(plan)),
        0 <= n < request.placements@.len(),
        0 <= i < request.placements@[n].parts@.len(),
    ensures
        plan.layouts@.len() == request.placements@.len(),
        request.placements@[n].sheet_index < request.sheets@.len(),
        plan.layouts@[n].sheet@
            == request.sheets@[request.placements@[n].sheet_index as int]@,
        plan.layouts@[n].parts@.len() == request.placements@[n].parts@.len(),
        plan.layouts@[n].parts@[i].x == request.placements@[n].parts@[i].x,
        plan.layouts@[n].parts@[i].y == request.placements@[n].parts@[i].y,
        plan.layouts@[n].parts@[i].rotation == request.placements@[n].parts@[i].rotation,
        request.parts_by_id@.contains_key(request.placements@[n].parts@[i].id),
        plan.layouts@[n].parts@[i].shape
            == request.parts_by_id@[request.placements@[n].parts@[i].id],
{
    let sheets = sheets_view(request.placements@);
    assert(sheets[n].parts == request.placements@[n].parts@);
    assert(sheets[n].sheet_index == request.placements@[n].sheet_index);
    assert(draws_parts(plan.layouts@[n].parts@, sheets[n].parts, request.parts_by_id@));
    assert(request.parts_by_id@.contains_key(sheets[n].parts[i].id));
}

/// Each sheet of a result is drawn, also one without a part, with as many shapes
/// as it has parts.
pub proof fn law_every_sheet_is_drawn(
    request: ExportRequest,
    bit: usize,
    plan: ExportPlan,
    n: int,
)
    requires
        call_ensures(build_export_layouts, (request, bit), Ok::<ExportPlan, String>(plan)),
        0 <= n < request.placements@.len(),
    ensures
        plan.layouts@.len() == request.placements@.len(),
        plan.layouts@[n].parts@.len() == request.placements@[n].parts@.len(),
        request.placements@[n].sheet_index < request.sheets@.len(),
        plan.layouts@[n].sheet@
            == request.sheets@[request.placements@[n].sheet_index as int]@,
{
    let sheets = sheets_view(request.placements@);
    assert(sheets[n].parts == request.placements@[n].parts@);
    assert(sheets[n].sheet_index == request.placements@[n].sheet_index);
    assert(draws_parts(plan.layouts@[n].parts@, sheets[n].parts, request.parts_by_id@));
}

/// An export is drawn exactly where the distance between sheets is not negative,
/// every sheet and every part of the result was supplied, and no part lies in
/// two places.
pub proof fn law_a_sound_result_is_exported(
    request: ExportRequest,
    bit: usize,
    r: Result<ExportPlan, String>,
)
    requires
        call_ensures(build_export_layouts, (request, bit), r),
    ensures
        r is Ok <==> {
            &&& !request.sheet_spacing.below(Scalar::zero())
            &&& forall|n: int|
                0 <= n < request.placements@.len() ==> (
                #[trigger] request.placements@[n]).sheet_index < request.sheets@.len()
            &&& forall|id: usize| #[trigger]
                lies_on(request.placements@, id) ==> request.parts_by_id@.contains_key(id)
            &&& lies_once(request.placements@)
        },
{
    let given = request.placements@;
    let sheets = sheets_view(given);
    let known = request.parts_by_id@.dom();
    let ids = placed_ids(sheets);
    law_exported_parts_are_drawn_once(sheets, request.sheets@.len(), known);
    lemma_placed_once(given);
    assert((forall|n: int|
        0 <= n < sheets.len() ==> (#[trigger] sheets[n]).sheet_index < request.sheets@.len()) <==> (
    forall|n: int|
        0 <= n < given.len() ==> (#[trigger] given[n]).sheet_index < request.sheets@.len())) by {
        if forall|n: int|
            0 <= n < sheets.len() ==> (#[trigger] sheets[n]).sheet_index
                < request.sheets@.len() {
            assert forall|n: int| 0 <= n < given.len() implies (#[trigger] given[n]).sheet_index
                < request.sheets@.len() by {
                assert(sheets[n].sheet_index < request.sheets@.len());
            }
        }
    }
    assert((forall|i: int| 0 <= i < ids.len() ==> known.contains(#[trigger] ids[i])) <==> (
    forall|id: usize| #[trigger]
        lies_on(given, id) ==> request.parts_by_id@.contains_key(id))) by {
        if forall|i: int| 0 <= i < ids.len() ==> known.contains(#[trigger] ids[i]) {
            assert forall|id: usize| #[trigger]
                lies_on(given, id) implies request.parts_by_id@.contains_key(id) by {
                lemma_placed_ids(given, id);
                let k = choose|k: int| 0 <= k < ids.len() && ids[k] == id;
                assert(known.contains(ids[k]));
            }
        }
        if forall|id: usize| #[trigger]
            lies_on(given, id) ==> request.parts_by_id@.contains_key(id) {
            assert forall|i: int| 0 <= i < ids.len() implies known.contains(
                #[trigger] ids[i],
            ) by {
                assert(ids.contains(ids[i]));
                lemma_placed_ids(given, ids[i]);
                assert(lies_on(given, ids[i]));
            }
        }
    }
}

/// Where leftovers are asked for, the export lists each part copy that lies on
/// no sheet, neither as it is nor flipped, once, with its own shape, the lower
/// ids first; and nothing else. Where they are not, it lists none.
pub proof fn law_leftovers_are_what_lies_nowhere(
    request: ExportRequest,
    bit: usize,
    plan: ExportPlan,
)
    requires
        call_ensures(build_export_layouts, (request, bit), Ok::<ExportPlan, String>(plan)),
    ensures
        !request.include_unplaced ==> plan.unplaced@.len() == 0,
        forall|i: int, j: int|
            0 <= i < j < plan.unplaced@.len() ==> (#[trigger] plan.unplaced@[i]).0 < (
            #[trigger] plan.unplaced@[j]).0,
        forall|i: int|
            0 <= i < plan.unplaced@.len() ==> {
                let id = (#[trigger] plan.unplaced@[i]).0;
                &&& request.parts_by_id@.contains_key(id)
                &&& plan.unplaced@[i].1 == request.parts_by_id@[id]
                &&& id & bit == 0
                &&& !lies_on(request.placements@, id)
                &&& !lies_on(request.placements@, id ^ bit)
            },
        forall|id: usize|
            request.include_unplaced && #[trigger] request.parts_by_id@.contains_key(id) && id
                & bit == 0 && !lies_on(request.placements@, id) && !lies_on(
                request.placements@,
                id ^ bit,
            ) ==> exists|i: int|
                0 <= i < plan.unplaced@.len() && (#[trigger] plan.unplaced@[i]).0 == id,
{
    let given = request.placements@;
    let placed = placed_ids(sheets_view(given));
    let known = request.parts_by_id@.dom();
    assert forall|i: int| 0 <= i < plan.unplaced@.len() implies {
        let id = (#[trigger] plan.unplaced@[i]).0;
        &&& request.parts_by_id@.contains_key(id)
        &&& plan.unplaced@[i].1 == request.parts_by_id@[id]
        &&& id & bit == 0
        &&& !lies_on(given, id)
        &&& !lies_on(given, id ^ bit)
    } by {
        let id = plan.unplaced@[i].0;
        assert(is_left(id, known, placed, bit));
        lemma_placed_ids(given, id);
        lemma_placed_ids(given, id ^ bit);
    }
    assert forall|id: usize|
        request.include_unplaced && #[trigger] request.parts_by_id@.contains_key(id) && id & bit
            == 0 && !lies_on(given, id) && !lies_on(given, id ^ bit) implies exists|i: int|
        0 <= i < plan.unplaced@.len() && (#[trigger] plan.unplaced@[i]).0 == id by {
        lemma_placed_ids(given, id);
        lemma_placed_ids(given, id ^ bit);
        assert(is_left(id, known, placed, bit));
    }
}

proof fn lemma_part_problem_names_a_part(
    parts: Seq<PlacedPartDto>,
    known: Set<usize>,
    used: Seq<usize>,
    message: Seq<char>,
)
    requires
        part_problem(parts, known, used) == Some(message),
    ensures
        exists|i: int|
            0 <= i < parts.len() && message == "placement references unknown part id "@ + decimal(
                (#[trigger] parts[i]).id as nat,
            ),
    decreases parts.len(),
{
    if parts.len() > 0 {
        let rest = parts.drop_last();
        if part_problem(rest, known, used) is Some {
            lemma_part_problem_names_a_part(rest, known, used, message);
            let i = choose|i: int|
                0 <= i < rest.len() && message == "placement references unknown part id "@
                    + decimal((#[trigger] rest[i]).id as nat);
            assert(parts[i] == rest[i]);
        } else {
            assert(parts[parts.len() - 1] == parts.last());
        }
    }
}

proof fn lemma_problem_names_its_place(
    given: Seq<SheetPlacementDto>,
    sheets: nat,
    known: Set<usize>,
    message: Seq<char>,
)
    requires
        placement_problem(sheets_view(given), sheets, known) == Some(message),
    ensures
        (exists|n: int|
            0 <= n < given.len() && (#[trigger] given[n]).sheet_index >= sheets && message
                == "placement references sheet_index "@ + decimal(given[n].sheet_index as nat)
                + " out of range"@) || (exists|n: int, i: int|
            0 <= n < given.len() && 0 <= i < given[n].parts@.len() && message
                == "placement references unknown part id "@ + decimal(
                (#[trigger] given[n].parts@[i]).id as nat,
            )),
    decreases given.len(),
{
    if given.len() > 0 {
        let rest = given.drop_last();
        let last = given.len() - 1;
        assert(sheets_view(given).drop_last() =~= sheets_view(rest));
        assert(given[last] == given.last());
        if placement_problem(sheets_view(rest), sheets, known) is Some {
            lemma_problem_names_its_place(rest, sheets, known, message);
            if exists|n: int|
                0 <= n < rest.len() && (#[trigger] rest[n]).sheet_index >= sheets && message
                    == "placement references sheet_index "@ + decimal(rest[n].sheet_index as nat)
                    + " out of range"@ {
                let n = choose|n: int|
                    0 <= n < rest.len() && (#[trigger] rest[n]).sheet_index >= sheets && message
                        == "placement references sheet_index "@ + decimal(
                        rest[n].sheet_index as nat,
                    ) + " out of range"@;
                assert(given[n] == rest[n]);
            } else {
                let (n, i) = choose|n: int, i: int|
                    0 <= n < rest.len() && 0 <= i < rest[n].parts@.len() && message
                        == "placement references unknown part id "@ + decimal(
                        (#[trigger] rest[n].parts@[i]).id as nat,
                    );
                assert(given[n].parts@[i] == rest[n].parts@[i]);
            }
        } else if given.last().sheet_index < sheets {
            let parts = given.last().parts@;
            lemma_part_problem_names_a_part(
                parts,
                known,
                placed_ids(sheets_view(rest)),
                message,
            );
            let i = choose|i: int|
                0 <= i < parts.len() && message == "placement references unknown part id "@
                    + decimal((#[trigger] parts[i]).id as nat);
            assert(given[last].parts@[i] == parts[i]);
        }
    }
}

/// A refused export says why: the distance is negative, or it names a sheet that
/// was not supplied, or a part of the result that cannot be drawn.
pub proof fn law_a_refused_export_says_why(
    request: ExportRequest,
    bit: usize,
    message: String,
)
    requires
        call_ensures(build_export_layouts, (request, bit), Err::<ExportPlan, String>(message)),
    ensures
        ({
            ||| request.sheet_spacing.below(Scalar::zero()) && message@
                == "sheet spacing must be >= 0"@
            ||| exists|n: int|
                0 <= n < request.placements@.len() && (
                #[trigger] request.placements@[n]).sheet_index >= request.sheets@.len()
                    && message@ == "placement references sheet_index "@ + decimal(
                    request.placements@[n].sheet_index as nat,
                ) + " out of range"@
            ||| exists|n: int, i: int|
                0 <= n < request.placements@.len() && 0 <= i
                    < request.placements@[n].parts@.len() && message@
                    == "placement references unknown part id "@ + decimal(
                    (#[trigger] request.placements@[n].parts@[i]).id as nat,
                )
        }),
{
    if !request.sheet_spacing.below(Scalar::zero()) {
        lemma_problem_names_its_place(
            request.placements@,
            request.sheets@.len(),
            request.parts_by_id@.dom(),
            message@,
        );
    }
}

/// Each format has an ending and a name of its own.
pub proof fn law_formats_are_told_apart(
    a: ExportFormat,
    b: ExportFormat,
    ending: &'static str,
    other: &'static str,
    name: &'static str,
)
    requires
        call_ensures(ExportFormat::ext, (a,), ending),
        call_ensures(ExportFormat::ext, (b,), other),
        call_ensures(ExportFormat::label, (a,), name),
    ensures
        ending@ == other@ ==> a == b,
        a == ExportFormat::Dxf <==> ending@ == "dxf"@,
        a == ExportFormat::Svg <==> ending@ == "svg"@,
        a == ExportFormat::Pdf <==> ending@ == "pdf"@,
        a == ExportFormat::Dxf ==> name@ == "DXF"@,
        a == ExportFormat::Svg ==> name@ == "SVG"@,
        a == ExportFormat::Pdf ==> name@ == "PDF REPORT"@,
{
    reveal_strlit("dxf");
    reveal_strlit("svg");
    reveal_strlit("pdf");
    assert("dxf"@[0] == 'd' && "svg"@[0] == 's' && "pdf"@[0] == 'p');
}

} // verus!
