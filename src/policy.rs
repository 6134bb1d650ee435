use vstd::prelude::*;
use vstd::string::*;

verus! {

/// The largest short edge, in pixels, that an image may keep unchanged.
pub const MAX_HEIGHT: u32 = 2160;

/// The pixel size of an image.
#[derive(Clone, Copy, Debug, PartialEq, Eq, Structural)]
pub struct Dimensions {
    pub width: u32,
    pub height: u32,
}

/// What to do with one image.
#[derive(Clone, Copy, Debug, PartialEq, Eq, Structural)]
pub enum ResizeDecision {
    /// Copy the file byte for byte.
    Copy,
    /// Scale a landscape image so that its height becomes the given value.
    ResizeToHeight(u32),
    /// Scale a portrait or square image so that its width becomes the given value.
    ResizeToWidth(u32),
}

/// Landscape means strictly wider than tall.
pub open spec fn landscape(d: Dimensions) -> bool {
    d.width > d.height
}

/// The edge that is compared with the threshold: the height of a landscape
/// image, the width of any other.
pub open spec fn short_edge(d: Dimensions) -> u32 {
    if landscape(d) {
        d.height
    } else {
        d.width
    }
}

pub open spec fn needs_resize(d: Dimensions, max_edge: u32) -> bool {
    short_edge(d) > max_edge
}

pub open spec fn decision(d: Dimensions, max_edge: u32) -> ResizeDecision {
    if !needs_resize(d, max_edge) {
        ResizeDecision::Copy
    } else if landscape(d) {
        ResizeDecision::ResizeToHeight(max_edge)
    } else {
        ResizeDecision::ResizeToWidth(max_edge)
    }
}

impl Dimensions {
    pub fn is_landscape(&self) -> (r: bool)
        ensures
            r == landscape(*self),
    {
        self.width > self.height
    }

    /// Whether the image exceeds `MAX_HEIGHT` on the edge that the policy
    /// compares.
    pub fn should_resize(&self) -> (r: bool)
        ensures
            r == needs_resize(*self, MAX_HEIGHT),
    {
        self.should_resize_at(MAX_HEIGHT)
    }

    /// Whether the image exceeds `max_edge` on the edge that the policy compares.
    pub fn should_resize_at(&self, max_edge: u32) -> (r: bool)
        ensures
            r == needs_resize(*self, max_edge),
    {
        if self.is_landscape() {
            self.height > max_edge
        } else {
            self.width > max_edge
        }
    }

    /// The resize decision for this image under the threshold `max_edge`.
    pub fn decide(&self, max_edge: u32) -> (r: ResizeDecision)
        ensures
            r == decision(*self, max_edge),
            landscape(*self) && self.height > max_edge ==> r == ResizeDecision::ResizeToHeight(
                max_edge,
            ),
            landscape(*self) && self.height <= max_edge ==> r == ResizeDecision::Copy,
            !landscape(*self) && self.width > max_edge ==> r == ResizeDecision::ResizeToWidth(
                max_edge,
            ),
            !landscape(*self) && self.width <= max_edge ==> r == ResizeDecision::Copy,
    {
        if !self.should_resize_at(max_edge) {
            ResizeDecision::Copy
        } else if self.is_landscape() {
            ResizeDecision::ResizeToHeight(max_edge)
        } else {
            ResizeDecision::ResizeToWidth(max_edge)
        }
    }
}

/// The decimal digit `d` as a character.
pub open spec fn digit_char(d: nat) -> char {
    seq!['0', '1', '2', '3', '4', '5', '6', '7', '8', '9'][d as int]
}

/// The decimal notation of `n`, without sign or leading zeros.
pub open spec fn decimal_text(n: nat) -> Seq<char>
    decreases n,
{
    if n < 10 {
        seq![digit_char(n)]
    } else {
        decimal_text(n / 10).push(digit_char(n % 10))
    }
}

/// The geometry argument that selects a decision's target size: `xH` fixes
/// the height, a bare `W` fixes the width.
pub open spec fn geometry_text(r: ResizeDecision) -> Option<Seq<char>> {
    match r {
        ResizeDecision::Copy => None,
        ResizeDecision::ResizeToHeight(h) => Some(seq!['x'] + decimal_text(h as nat)),
        ResizeDecision::ResizeToWidth(w) => Some(decimal_text(w as nat)),
    }
}

/// Relies on `u32`'s `ToString`, which writes the number in decimal.
#[verifier::external_body]
fn decimal(n: u32) -> (r: String)
    ensures
        r@ == decimal_text(n as nat),
{
    n.to_string()
}

impl ResizeDecision {
    /// The geometry argument for the resizing tool, or `None` for a plain copy.
    pub fn geometry(&self) -> (r: Option<String>)
        ensures
            r matches Some(g) ==> geometry_text(*self) == Some(g@),
            r is None <==> geometry_text(*self) is None,
    {
        match self {
            ResizeDecision::Copy => None,
            ResizeDecision::ResizeToHeight(h) => {
                let mut g = String::from_str("x");
                let digits = decimal(*h);
                g.append(digits.as_str());
                proof {
                    reveal_strlit("x");
                }
                Some(g)
            },
            ResizeDecision::ResizeToWidth(w) => Some(decimal(*w)),
        }
    }
}

} // verus!
