//! Outlines: a closed profile with its layer, its holes and its labels.

use vstd::prelude::*;
use crate::scalar::Scalar;

verus! {

#[derive(Clone, Copy, PartialEq, Eq, Structural, Debug)]
pub struct PointDto {
    pub x: Scalar,
    pub y: Scalar,
}

#[derive(Clone, Copy, PartialEq, Eq, Structural, Debug)]
pub struct CircleDto {
    pub cx: Scalar,
    pub cy: Scalar,
    pub r: Scalar,
}

/// A vertex of a boundary that may bulge into an arc towards the next one.
#[derive(Clone, Copy, PartialEq, Eq, Structural, Debug)]
pub struct RealVertexDto {
    pub point: PointDto,
    pub bulge: Scalar,
}

/// A label drawn on a part.
#[derive(Debug)]
pub struct TextDto {
    pub position: PointDto,
    pub rotation_deg: Scalar,
    pub height: Scalar,
    pub value: String,
    pub is_multiline: bool,
}

/// What a [`TextDto`] holds.
#[verifier::ext_equal]
pub struct TextModel {
    pub position: PointDto,
    pub rotation_deg: Scalar,
    pub height: Scalar,
    pub value: Seq<char>,
    pub is_multiline: bool,
}

impl View for TextDto {
    type V = TextModel;

    open spec fn view(&self) -> TextModel {
        TextModel {
            position: self.position,
            rotation_deg: self.rotation_deg,
            height: self.height,
            value: self.value@,
            is_multiline: self.is_multiline,
        }
    }
}

impl Clone for TextDto {
    fn clone(&self) -> (r: Self)
        ensures
            r@ == self@,
    {
        TextDto {
            position: self.position,
            rotation_deg: self.rotation_deg,
            height: self.height,
            value: self.value.clone(),
            is_multiline: self.is_multiline,
        }
    }
}

/// A closed profile and what lies inside it.
#[derive(Debug)]
pub struct PolygonDto {
    pub points: Vec<PointDto>,
    pub layer: String,
    pub is_circle: Option<CircleDto>,
    /// Holes, and what lies inside them in turn.
    pub children: Vec<PolygonDto>,
    pub texts: Vec<TextDto>,
    /// The boundary with its arcs intact, where the source drew arcs.
    pub real_boundary: Option<Vec<RealVertexDto>>,
}

/// What a [`PolygonDto`] holds.
#[verifier::ext_equal]
pub struct Outline {
    pub points: Seq<PointDto>,
    pub layer: Seq<char>,
    pub is_circle: Option<CircleDto>,
    pub children: Seq<Outline>,
    pub texts: Seq<TextModel>,
    pub real_boundary: Option<Seq<RealVertexDto>>,
}

impl PolygonDto {
    /// What the profile holds, all the way down.
    pub open spec fn outline(self) -> Outline
        decreases self,
    {
        Outline {
            points: self.points@,
            layer: self.layer@,
            is_circle: self.is_circle,
            children: Seq::new(
                self.children@.len(),
                |i: int|
                    if 0 <= i < self.children@.len() {
                        self.children@[i].outline()
                    } else {
                        arbitrary()
                    },
            ),
            texts: self.texts@.map_values(|t: TextDto| t@),
            real_boundary: match self.real_boundary {
                Some(vertices) => Some(vertices@),
                None => None,
            },
        }
    }

    /// A plain profile: no holes, no labels, no arcs.
    pub fn new(points: Vec<PointDto>, layer: String, is_circle: Option<CircleDto>) -> (r: Self)
        ensures
            r.points == points,
            r.layer == layer,
            r.is_circle == is_circle,
            r.children@.len() == 0,
            r.texts@.len() == 0,
            r.real_boundary is None,
    {
        PolygonDto {
            points,
            layer,
            is_circle,
            children: Vec::new(),
            texts: Vec::new(),
            real_boundary: None,
        }
    }
}

impl View for PolygonDto {
    type V = Outline;

    open spec fn view(&self) -> Outline {
        self.outline()
    }
}

fn copy_points(points: &Vec<PointDto>) -> (r: Vec<PointDto>)
    ensures
        r@ == points@,
{
    let mut out: Vec<PointDto> = Vec::new();
    let mut i: usize = 0;
    while i < points.len()
        invariant
            i <= points.len(),
            out@ == points@.subrange(0, i as int),
        decreases points.len() - i,
    {
        out.push(points[i]);
        i += 1;
    }
    assert(points@.subrange(0, points@.len() as int) == points@);
    out
}

fn copy_vertices(vertices: &Vec<RealVertexDto>) -> (r: Vec<RealVertexDto>)
    ensures
        r@ == vertices@,
{
    let mut out: Vec<RealVertexDto> = Vec::new();
    let mut i: usize = 0;
    while i < vertices.len()
        invariant
            i <= vertices.len(),
            out@ == vertices@.subrange(0, i as int),
        decreases vertices.len() - i,
    {
        out.push(vertices[i]);
        i += 1;
    }
    assert(vertices@.subrange(0, vertices@.len() as int) == vertices@);
    out
}

fn copy_texts(texts: &Vec<TextDto>) -> (r: Vec<TextDto>)
    ensures
        r@.map_values(|t: TextDto| t@) == texts@.map_values(|t: TextDto| t@),
{
    let mut out: Vec<TextDto> = Vec::new();
    let mut i: usize = 0;
    while i < texts.len()
        invariant
            i <= texts.len(),
            out.len() == i,
            forall|k: int| 0 <= k < i ==> (#[trigger] out@[k])@ == texts@[k]@,
        decreases texts.len() - i,
    {
        out.push(texts[i].clone());
        i += 1;
    }
    out
}

impl Clone for PolygonDto {
    fn clone(&self) -> (r: Self)
        ensures
            r@ == self@,
        decreases self,
    {
        let mut children: Vec<PolygonDto> = Vec::new();
        let mut i: usize = 0;
        while i < self.children.len()
            invariant
                i <= self.children.len(),
                children.len() == i,
                forall|k: int|
                    0 <= k < i ==> (#[trigger] children@[k]).outline()
                        == self.children@[k].outline(),
            decreases self.children.len() - i,
        {
            proof {
                assert(decreases_to!(self => self.children@[i as int]));
            }
            children.push(self.children[i].clone());
            i += 1;
        }
        let real_boundary = match &self.real_boundary {
            Some(vertices) => Some(copy_vertices(vertices)),
            None => None,
        };
        let r = PolygonDto {
            points: copy_points(&self.points),
            layer: self.layer.clone(),
            is_circle: self.is_circle,
            children,
            texts: copy_texts(&self.texts),
            real_boundary,
        };
        proof {
            let a = r.outline();
            let b = self.outline();
            assert(a.children.len() == b.children.len());
            assert forall|k: int| 0 <= k < a.children.len() implies a.children[k]
                == b.children[k] by {
                assert(r.children@[k].outline() == self.children@[k].outline());
            }
            assert(a.children == b.children);
            assert(a.texts == b.texts);
            assert(a.real_boundary == b.real_boundary);
        }
        r
    }
}

/// What a profile holds is everything it is made of: its points, its layer, its
/// circle, its arcs and its labels, and whatever lies inside it, each in turn.
pub proof fn law_an_outline_holds_everything(shape: PolygonDto)
    ensures
        shape@.points == shape.points@,
        shape@.layer == shape.layer@,
        shape@.is_circle == shape.is_circle,
        shape@.real_boundary is Some <==> shape.real_boundary is Some,
        shape.real_boundary matches Some(vertices) ==> shape@.real_boundary == Some(vertices@),
        shape@.texts.len() == shape.texts@.len(),
        forall|i: int|
            0 <= i < shape.texts@.len() ==> #[trigger] shape@.texts[i] == shape.texts@[i]@,
        shape@.children.len() == shape.children@.len(),
        forall|i: int|
            0 <= i < shape.children@.len() ==> #[trigger] shape@.children[i]
                == shape.children@[i]@,
{
}

/// What a label holds is its text, where it stands, and how it is written.
pub proof fn law_a_label_holds_everything(text: TextDto)
    ensures
        text@.position == text.position,
        text@.rotation_deg == text.rotation_deg,
        text@.height == text.height,
        text@.value == text.value@,
        text@.is_multiline == text.is_multiline,
{
}

/// A plain profile is its points on its layer, with nothing inside.
pub proof fn law_a_plain_profile_is_its_points(
    points: Vec<PointDto>,
    layer: String,
    is_circle: Option<CircleDto>,
    r: PolygonDto,
)
    requires
        call_ensures(PolygonDto::new, (points, layer, is_circle), r),
    ensures
        r.points@ == points@,
        r.layer@ == layer@,
        r.is_circle == is_circle,
        r.children@.len() == 0 && r.texts@.len() == 0 && r.real_boundary is None,
{
}

} // verus!
