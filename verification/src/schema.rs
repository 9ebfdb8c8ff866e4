//! Which attributes each kind of element knows, and what their values must
//! look like.

use vstd::prelude::*;
use crate::scalar::{Scalar, ScalarView, scalar_views, as_numerals, numerals_of, parse_scalars};
use crate::text::{all_digits, same_text, Separator, tokens_of, is_numeral, is_digit, split, numeral, chars_of};

verus! {

/// The kinds of element.
#[derive(Clone, Copy, PartialEq, Eq, Structural, Debug)]
pub enum NodeKind {
    Geom,
    WorldBody,
    Body,
    Joint,
    Defaults,
    Assets,
    Mesh,
    Texture,
    Material,
}

/// What the value of an attribute must look like.
#[derive(Clone, Copy, PartialEq, Eq, Structural, Debug)]
pub enum ValueShape {
    /// Any text.
    Text,
    /// Exactly three numerals, one space between two of them.
    Three,
    /// Exactly four numerals, one space between two of them.
    Four,
    /// One to three numerals, one space between two of them.
    UpToThree,
    /// At least three tokens between white space, of which the first three are
    /// numerals; what follows them is not read.
    LeadingThree,
    /// Any number of numerals between white space.
    Numerals,
    /// Exactly two unsigned whole numbers, one space between them.
    Grid,
}

/// The element name that a document uses for a kind.
pub open spec fn tag_of(kind: NodeKind) -> Seq<char> {
    match kind {
        NodeKind::Geom => "geom"@,
        NodeKind::WorldBody => "worldbody"@,
        NodeKind::Body => "body"@,
        NodeKind::Joint => "joint"@,
        NodeKind::Defaults => "default"@,
        NodeKind::Assets => "asset"@,
        NodeKind::Mesh => "mesh"@,
        NodeKind::Texture => "texture"@,
        NodeKind::Material => "material"@,
    }
}

/// The shape that a kind of element asks of the value of a key, where it
/// knows the key.
pub open spec fn key_shape(kind: NodeKind, key: Seq<char>) -> Option<ValueShape> {
    match kind {
        NodeKind::Geom => if key == "class"@ || key == "name"@ || key == "material"@ || key
            == "type"@ || key == "mesh"@ {
            Some(ValueShape::Text)
        } else if key == "pos"@ || key == "euler"@ {
            Some(ValueShape::Three)
        } else if key == "size"@ {
            Some(ValueShape::UpToThree)
        } else {
            None
        },
        NodeKind::WorldBody => if key == "class"@ || key == "childclass"@ || key == "name"@ {
            Some(ValueShape::Text)
        } else {
            None
        },
        NodeKind::Body => if key == "class"@ || key == "childclass"@ || key == "name"@ {
            Some(ValueShape::Text)
        } else if key == "pos"@ || key == "euler"@ {
            Some(ValueShape::Three)
        } else if key == "scale"@ {
            Some(ValueShape::LeadingThree)
        } else {
            None
        },
        NodeKind::Joint => if key == "class"@ || key == "name"@ {
            Some(ValueShape::Text)
        } else {
            None
        },
        NodeKind::Defaults => if key == "class"@ {
            Some(ValueShape::Text)
        } else {
            None
        },
        NodeKind::Assets => None,
        NodeKind::Mesh => if key == "name"@ || key == "file"@ {
            Some(ValueShape::Text)
        } else if key == "vertex"@ {
            Some(ValueShape::Numerals)
        } else if key == "scale"@ {
            Some(ValueShape::LeadingThree)
        } else {
            None
        },
        NodeKind::Texture => if key == "name"@ || key == "file"@ || key == "gridlayout"@ || key
            == "type"@ {
            Some(ValueShape::Text)
        } else if key == "gridsize"@ {
            Some(ValueShape::Grid)
        } else {
            None
        },
        NodeKind::Material => if key == "name"@ || key == "texture"@ {
            Some(ValueShape::Text)
        } else if key == "rgba"@ {
            Some(ValueShape::Four)
        } else {
            None
        },
    }
}

/// The number that a run of digits spells, read up to index `upto`.
pub open spec fn digits_value(s: Seq<char>, upto: int) -> nat
    decreases upto,
{
    if upto <= 0 || upto > s.len() {
        0
    } else {
        (digits_value(s, upto - 1) * 10 + ((s[upto - 1] as u32) - ('0' as u32))) as nat
    }
}

/// A text without the `+` that may stand at its start.
pub open spec fn unsigned_body(s: Seq<char>) -> Seq<char> {
    if s.len() > 0 && s[0] == '+' {
        s.subrange(1, s.len() as int)
    } else {
        s
    }
}

/// The unsigned whole number that a text spells: an optional `+`, then at
/// least one digit and nothing else, with a value that 32 bits hold.
pub open spec fn unsigned_of(s: Seq<char>) -> Option<u32> {
    let body = unsigned_body(s);
    if body.len() > 0 && all_digits(body) && digits_value(body, body.len() as int) <= u32::MAX {
        Some(digits_value(body, body.len() as int) as u32)
    } else {
        None
    }
}

/// The separator under which a shape cuts its value.
pub open spec fn separator_of(shape: ValueShape) -> Separator {
    match shape {
        ValueShape::LeadingThree | ValueShape::Numerals => Separator::Blank,
        _ => Separator::Space,
    }
}

/// Whether a value has a shape.
pub open spec fn shape_ok(shape: ValueShape, value: Seq<char>) -> bool {
    let tokens = tokens_of(separator_of(shape), value);
    match shape {
        ValueShape::Text => true,
        ValueShape::Three => tokens.len() == 3 && numerals_of(Separator::Space, value) is Some,
        ValueShape::Four => tokens.len() == 4 && numerals_of(Separator::Space, value) is Some,
        ValueShape::UpToThree => tokens.len() <= 3 && numerals_of(Separator::Space, value) is Some,
        ValueShape::LeadingThree => tokens.len() >= 3 && is_numeral(tokens[0]) && is_numeral(
            tokens[1],
        ) && is_numeral(tokens[2]),
        ValueShape::Numerals => numerals_of(Separator::Blank, value) is Some,
        ValueShape::Grid => tokens.len() == 2 && unsigned_of(tokens[0]) is Some && unsigned_of(
            tokens[1],
        ) is Some,
    }
}

/// The numerals that a value of a numeric shape holds: all of its tokens, or
/// the first three for [`ValueShape::LeadingThree`].
pub open spec fn scalars_of(shape: ValueShape, value: Seq<char>) -> Seq<ScalarView> {
    let tokens = tokens_of(separator_of(shape), value);
    match shape {
        ValueShape::LeadingThree => as_numerals(tokens.take(3)),
        _ => as_numerals(tokens),
    }
}

/// The kind that a tag stands for, if it stands for one.
pub open spec fn kind_named(tag: Seq<char>) -> Option<NodeKind> {
    if tag == "geom"@ {
        Some(NodeKind::Geom)
    } else if tag == "worldbody"@ {
        Some(NodeKind::WorldBody)
    } else if tag == "body"@ {
        Some(NodeKind::Body)
    } else if tag == "joint"@ {
        Some(NodeKind::Joint)
    } else if tag == "default"@ {
        Some(NodeKind::Defaults)
    } else if tag == "asset"@ {
        Some(NodeKind::Assets)
    } else if tag == "mesh"@ {
        Some(NodeKind::Mesh)
    } else if tag == "texture"@ {
        Some(NodeKind::Texture)
    } else if tag == "material"@ {
        Some(NodeKind::Material)
    } else {
        None
    }
}

/// Names the kind that a tag stands for.
pub fn kind_of_tag(tag: &str) -> (r: Option<NodeKind>)
    ensures
        r == kind_named(tag@),
{
    if same_text(tag, "geom") {
        Some(NodeKind::Geom)
    } else if same_text(tag, "worldbody") {
        Some(NodeKind::WorldBody)
    } else if same_text(tag, "body") {
        Some(NodeKind::Body)
    } else if same_text(tag, "joint") {
        Some(NodeKind::Joint)
    } else if same_text(tag, "default") {
        Some(NodeKind::Defaults)
    } else if same_text(tag, "asset") {
        Some(NodeKind::Assets)
    } else if same_text(tag, "mesh") {
        Some(NodeKind::Mesh)
    } else if same_text(tag, "texture") {
        Some(NodeKind::Texture)
    } else if same_text(tag, "material") {
        Some(NodeKind::Material)
    } else {
        None
    }
}

/// The tag of a kind.
pub fn tag(kind: NodeKind) -> (r: String)
    ensures
        r@ == tag_of(kind),
{
    match kind {
        NodeKind::Geom => "geom".to_owned(),
        NodeKind::WorldBody => "worldbody".to_owned(),
        NodeKind::Body => "body".to_owned(),
        NodeKind::Joint => "joint".to_owned(),
        NodeKind::Defaults => "default".to_owned(),
        NodeKind::Assets => "asset".to_owned(),
        NodeKind::Mesh => "mesh".to_owned(),
        NodeKind::Texture => "texture".to_owned(),
        NodeKind::Material => "material".to_owned(),
    }
}

/// Looks a key up in what a kind of element knows.
pub fn shape_of_key(kind: NodeKind, key: &str) -> (r: Option<ValueShape>)
    ensures
        r == key_shape(kind, key@),
{
    match kind {
        NodeKind::Geom => if same_text(key, "class") || same_text(key, "name") || same_text(
            key,
            "material",
        ) || same_text(key, "type") || same_text(key, "mesh") {
            Some(ValueShape::Text)
        } else if same_text(key, "pos") || same_text(key, "euler") {
            Some(ValueShape::Three)
        } else if same_text(key, "size") {
            Some(ValueShape::UpToThree)
        } else {
            None
        },
        NodeKind::WorldBody => if same_text(key, "class") || same_text(key, "childclass")
            || same_text(key, "name") {
            Some(ValueShape::Text)
        } else {
            None
        },
        NodeKind::Body => if same_text(key, "class") || same_text(key, "childclass") || same_text(
            key,
            "name",
        ) {
            Some(ValueShape::Text)
        } else if same_text(key, "pos") || same_text(key, "euler") {
            Some(ValueShape::Three)
        } else if same_text(key, "scale") {
            Some(ValueShape::LeadingThree)
        } else {
            None
        },
        NodeKind::Joint => if same_text(key, "class") || same_text(key, "name") {
            Some(ValueShape::Text)
        } else {
            None
        },
        NodeKind::Defaults => if same_text(key, "class") {
            Some(ValueShape::Text)
        } else {
            None
        },
        NodeKind::Assets => None,
        NodeKind::Mesh => if same_text(key, "name") || same_text(key, "file") {
            Some(ValueShape::Text)
        } else if same_text(key, "vertex") {
            Some(ValueShape::Numerals)
        } else if same_text(key, "scale") {
            Some(ValueShape::LeadingThree)
        } else {
            None
        },
        NodeKind::Texture => if same_text(key, "name") || same_text(key, "file") || same_text(
            key,
            "gridlayout",
        ) || same_text(key, "type") {
            Some(ValueShape::Text)
        } else if same_text(key, "gridsize") {
            Some(ValueShape::Grid)
        } else {
            None
        },
        NodeKind::Material => if same_text(key, "name") || same_text(key, "texture") {
            Some(ValueShape::Text)
        } else if same_text(key, "rgba") {
            Some(ValueShape::Four)
        } else {
            None
        },
    }
}

/// Reads an unsigned whole number.
pub fn parse_unsigned(s: &str) -> (r: Option<u32>)
    ensures
        r == unsigned_of(s@),
{
    let chars = chars_of(s);
    let n = chars.len();
    let from: usize = if n > 0 && chars[0] == '+' {
        1
    } else {
        0
    };
    let ghost body = unsigned_body(s@);
    if from == n {
        assert(body.len() == 0);
        return None;
    }
    let mut acc: u64 = 0;
    let mut i: usize = from;
    while i < n
        invariant
            chars@ == s@,
            n == chars.len(),
            from <= i <= n,
            from <= 1,
            from == 1 <==> (n > 0 && s@[0] == '+'),
            body == unsigned_body(s@),
            forall|j: int| 0 <= j < i - from ==> is_digit(#[trigger] body[j]),
            acc == digits_value(body, i - from),
            acc <= u32::MAX,
        decreases n - i,
    {
        let c = chars[i];
        assert(body[i - from] == c);
        if !('0' <= c && c <= '9') {
            assert(!is_digit(body[i - from]));
            return None;
        }
        let d: u64 = (c as u32 - '0' as u32) as u64;
        assert(digits_value(body, i - from + 1) == digits_value(body, i - from) * 10 + d);
        acc = acc * 10 + d;
        if acc > 0xffff_ffff {
            proof {
                if all_digits(body) {
                    lemma_digits_value_grows(body, i - from + 1, body.len() as int);
                }
            }
            return None;
        }
        i += 1;
    }
    assert(i - from == body.len());
    Some(acc as u32)
}

/// The value of a longer run of digits is no smaller than that of its start.
pub proof fn lemma_digits_value_grows(s: Seq<char>, a: int, b: int)
    requires
        0 <= a <= b <= s.len(),
        all_digits(s),
    ensures
        digits_value(s, a) <= digits_value(s, b),
    decreases b - a,
{
    if a < b {
        lemma_digits_value_grows(s, a, b - 1);
    }
}

/// Whether a shape is one of numerals.
pub open spec fn is_numeric(shape: ValueShape) -> bool {
    shape != ValueShape::Text && shape != ValueShape::Grid
}

/// Reads the numerals of a value of a numeric shape: `None` where the value
/// has not that shape, or the shape is not one of numerals.
pub fn read_scalars(shape: ValueShape, value: &str) -> (r: Option<Vec<Scalar>>)
    ensures
        match r {
            Some(v) => is_numeric(shape) && shape_ok(shape, value@) && scalar_views(v@)
                == scalars_of(shape, value@),
            None => !is_numeric(shape) || !shape_ok(shape, value@),
        },
{
    match shape {
        ValueShape::Text => None,
        ValueShape::Grid => None,
        ValueShape::LeadingThree => {
            let tokens = split(Separator::Blank, value);
            let ghost toks = tokens_of(Separator::Blank, value@);
            if tokens.len() < 3 {
                return None;
            }
            assert(toks[0] == tokens[0]@ && toks[1] == tokens[1]@ && toks[2] == tokens[2]@);
            if numeral(tokens[0].as_str()) && numeral(tokens[1].as_str()) && numeral(
                tokens[2].as_str(),
            ) {
                let mut out: Vec<Scalar> = Vec::new();
                out.push(Scalar::Numeral(tokens[0].clone()));
                out.push(Scalar::Numeral(tokens[1].clone()));
                out.push(Scalar::Numeral(tokens[2].clone()));
                assert(scalar_views(out@) =~= as_numerals(toks.take(3)));
                Some(out)
            } else {
                None
            }
        },
        _ => {
            let sep = match shape {
                ValueShape::Numerals => Separator::Blank,
                _ => Separator::Space,
            };
            match parse_scalars(sep, value) {
                None => None,
                Some(v) => {
                    assert(scalar_views(v@).len() == v.len());
                    assert(v.len() == tokens_of(sep, value@).len());
                    let fits = match shape {
                        ValueShape::Three => v.len() == 3,
                        ValueShape::Four => v.len() == 4,
                        ValueShape::UpToThree => v.len() <= 3,
                        _ => true,
                    };
                    if fits {
                        Some(v)
                    } else {
                        None
                    }
                },
            }
        },
    }
}

/// Reads the two numbers of a grid value.
pub fn read_grid(value: &str) -> (r: Option<(u32, u32)>)
    ensures
        r is Some == shape_ok(ValueShape::Grid, value@),
        r is Some ==> r == Some(
            (
                unsigned_of(tokens_of(Separator::Space, value@)[0])->0,
                unsigned_of(tokens_of(Separator::Space, value@)[1])->0,
            ),
        ),
{
    let tokens = split(Separator::Space, value);
    let ghost toks = tokens_of(Separator::Space, value@);
    if tokens.len() != 2 {
        return None;
    }
    assert(toks[0] == tokens[0]@ && toks[1] == tokens[1]@);
    match (parse_unsigned(tokens[0].as_str()), parse_unsigned(tokens[1].as_str())) {
        (Some(a), Some(b)) => Some((a, b)),
        _ => None,
    }
}

/// Decides whether a value has a shape.
pub fn check_shape(shape: ValueShape, value: &str) -> (r: bool)
    ensures
        r == shape_ok(shape, value@),
{
    match shape {
        ValueShape::Text => true,
        ValueShape::Grid => read_grid(value).is_some(),
        _ => read_scalars(shape, value).is_some(),
    }
}

} // verus!
