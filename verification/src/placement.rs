//! Where parts ended up: one placed part, one sheet of them, one whole result.

use vstd::prelude::*;
use crate::scalar::Scalar;

verus! {

/// One part at its place on a sheet.
#[derive(Clone, Copy, PartialEq, Eq, Structural, Debug)]
pub struct PlacedPartDto {
    pub id: usize,
    pub x: Scalar,
    pub y: Scalar,
    pub rotation: Scalar,
    /// Pinned by the user: a repack must leave it where it is.
    pub locked: bool,
}

/// One sheet and the parts on it.
#[derive(Debug)]
pub struct SheetPlacementDto {
    pub sheet_index: usize,
    pub parts: Vec<PlacedPartDto>,
}

/// What a [`SheetPlacementDto`] holds.
#[verifier::ext_equal]
pub struct SheetModel {
    pub sheet_index: usize,
    pub parts: Seq<PlacedPartDto>,
}

impl View for SheetPlacementDto {
    type V = SheetModel;

    open spec fn view(&self) -> SheetModel {
        SheetModel { sheet_index: self.sheet_index, parts: self.parts@ }
    }
}

impl Clone for SheetPlacementDto {
    fn clone(&self) -> (r: Self)
        ensures
            r@ == self@,
    {
        SheetPlacementDto { sheet_index: self.sheet_index, parts: copy_parts(&self.parts) }
    }
}

/// A copy of a list of placed parts.
pub fn copy_parts(parts: &Vec<PlacedPartDto>) -> (r: Vec<PlacedPartDto>)
    ensures
        r@ == parts@,
{
    let mut out: Vec<PlacedPartDto> = Vec::new();
    let mut i: usize = 0;
    while i < parts.len()
        invariant
            i <= parts.len(),
            out@ == parts@.subrange(0, i as int),
        decreases parts.len() - i,
    {
        out.push(parts[i]);
        i += 1;
    }
    assert(parts@.subrange(0, parts@.len() as int) == parts@);
    out
}

/// What a list of sheets holds.
pub open spec fn sheets_view(placements: Seq<SheetPlacementDto>) -> Seq<SheetModel> {
    placements.map_values(|s: SheetPlacementDto| s@)
}

/// A copy of a list of sheets.
pub fn copy_sheets(placements: &Vec<SheetPlacementDto>) -> (r: Vec<SheetPlacementDto>)
    ensures
        sheets_view(r@) == sheets_view(placements@),
{
    let mut out: Vec<SheetPlacementDto> = Vec::new();
    let mut i: usize = 0;
    while i < placements.len()
        invariant
            i <= placements.len(),
            out.len() == i,
            forall|k: int| 0 <= k < i ==> (#[trigger] out@[k])@ == placements@[k]@,
        decreases placements.len() - i,
    {
        out.push(placements[i].clone());
        i += 1;
    }
    out
}

/// A copy of a list of ids.
pub fn copy_ids(ids: &Vec<usize>) -> (r: Vec<usize>)
    ensures
        r@ == ids@,
{
    let mut out: Vec<usize> = Vec::new();
    let mut i: usize = 0;
    while i < ids.len()
        invariant
            i <= ids.len(),
            out@ == ids@.subrange(0, i as int),
        decreases ids.len() - i,
    {
        out.push(ids[i]);
        i += 1;
    }
    assert(ids@.subrange(0, ids@.len() as int) == ids@);
    out
}

/// One complete nest: every sheet that was opened, and what did not fit.
#[derive(Debug)]
pub struct PlaceResult {
    pub placements: Vec<SheetPlacementDto>,
    pub fitness: Scalar,
    pub area: Scalar,
    pub total_area: Scalar,
    pub utilisation: Scalar,
    pub unplaced_count: usize,
    pub unplaced_ids: Vec<usize>,
}

/// What a [`PlaceResult`] holds.
#[verifier::ext_equal]
pub struct PlaceModel {
    pub placements: Seq<SheetModel>,
    pub fitness: Scalar,
    pub area: Scalar,
    pub total_area: Scalar,
    pub utilisation: Scalar,
    pub unplaced_count: usize,
    pub unplaced_ids: Seq<usize>,
}

impl View for PlaceResult {
    type V = PlaceModel;

    open spec fn view(&self) -> PlaceModel {
        PlaceModel {
            placements: sheets_view(self.placements@),
            fitness: self.fitness,
            area: self.area,
            total_area: self.total_area,
            utilisation: self.utilisation,
            unplaced_count: self.unplaced_count,
            unplaced_ids: self.unplaced_ids@,
        }
    }
}

impl Clone for PlaceResult {
    fn clone(&self) -> (r: Self)
        ensures
            r@ == self@,
    {
        PlaceResult {
            placements: copy_sheets(&self.placements),
            fitness: self.fitness,
            area: self.area,
            total_area: self.total_area,
            utilisation: self.utilisation,
            unplaced_count: self.unplaced_count,
            unplaced_ids: copy_ids(&self.unplaced_ids),
        }
    }
}

/// What a result holds is each of its own fields, and of each sheet its place
/// and its parts, in order.
pub proof fn law_a_model_holds_every_field(result: PlaceResult)
    ensures
        result@.placements.len() == result.placements@.len(),
        forall|i: int|
            0 <= i < result.placements@.len() ==> {
                &&& (#[trigger] result@.placements[i]).sheet_index
                    == result.placements@[i].sheet_index
                &&& result@.placements[i].parts == result.placements@[i].parts@
            },
        result@.fitness == result.fitness,
        result@.area == result.area,
        result@.total_area == result.total_area,
        result@.utilisation == result.utilisation,
        result@.unplaced_count == result.unplaced_count,
        result@.unplaced_ids == result.unplaced_ids@,
{
}

/// A list of sheets is told by its sheets: their places and their parts, in
/// order.
pub proof fn law_a_list_of_sheets_is_its_sheets(sheets: Seq<SheetPlacementDto>)
    ensures
        sheets_view(sheets).len() == sheets.len(),
        forall|i: int|
            0 <= i < sheets.len() ==> {
                &&& (#[trigger] sheets_view(sheets)[i]).sheet_index == sheets[i].sheet_index
                &&& sheets_view(sheets)[i].parts == sheets[i].parts@
            },
{
}

/// A copy of some sheets has the same parts at the same places on the same
/// sheets.
pub proof fn law_copied_sheets_are_the_same(
    sheets: &Vec<SheetPlacementDto>,
    copy: Vec<SheetPlacementDto>,
)
    requires
        call_ensures(copy_sheets, (sheets,), copy),
    ensures
        copy@.len() == sheets@.len(),
        forall|i: int|
            0 <= i < sheets@.len() ==> {
                &&& (#[trigger] copy@[i]).sheet_index == sheets@[i].sheet_index
                &&& copy@[i].parts@ == sheets@[i].parts@
            },
{
    law_a_list_of_sheets_is_its_sheets(copy@);
    law_a_list_of_sheets_is_its_sheets(sheets@);
    assert forall|i: int| 0 <= i < sheets@.len() implies {
        &&& (#[trigger] copy@[i]).sheet_index == sheets@[i].sheet_index
        &&& copy@[i].parts@ == sheets@[i].parts@
    } by {
        assert(sheets_view(copy@)[i] == sheets_view(sheets@)[i]);
    }
}

/// Two lists of sheets of one model hold the same parts on the same sheets.
pub proof fn lemma_same_sheets(a: Seq<SheetPlacementDto>, b: Seq<SheetPlacementDto>)
    requires
        sheets_view(a) == sheets_view(b),
    ensures
        a.len() == b.len(),
        forall|i: int|
            0 <= i < a.len() ==> (#[trigger] a[i]).sheet_index == b[i].sheet_index && a[i].parts@
                == b[i].parts@,
{
    assert(sheets_view(a).len() == a.len() && sheets_view(b).len() == b.len());
    assert forall|i: int| 0 <= i < a.len() implies (#[trigger] a[i]).sheet_index
        == b[i].sheet_index && a[i].parts@ == b[i].parts@ by {
        assert(sheets_view(a)[i] == a[i]@ && sheets_view(b)[i] == b[i]@);
    }
}

} // verus!
