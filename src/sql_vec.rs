use vstd::prelude::*;
use vstd::utf8::{decode_utf8, valid_utf8};

use crate::element::TextElement;
use crate::stored::{utf8_text, ExtractError, StoredValue};
use crate::text::{join, segments, split, string_views, trim, trimmed, DELIMITER};

verus! {

/// The views of the elements of `s`, in order.
pub open spec fn element_views<T: View>(s: Seq<T>) -> Seq<T::V> {
    s.map_values(|x: T| x@)
}

/// The display strings of the elements, in order.
pub open spec fn displays<T: TextElement>(items: Seq<T::V>) -> Seq<Seq<char>> {
    items.map_values(|v: T::V| T::display_spec(v))
}

/// The encoded form: the display strings joined with the delimiter.
pub open spec fn encoded<T: TextElement>(items: Seq<T::V>) -> Seq<char> {
    join(displays::<T>(items))
}

/// The values that the pieces parse to, in order; a piece that does not parse
/// is left out.
pub open spec fn keep_parsed<T: TextElement>(pieces: Seq<Seq<char>>) -> Seq<T::V>
    decreases pieces.len(),
{
    if pieces.len() == 0 {
        Seq::empty()
    } else {
        let head = keep_parsed::<T>(pieces.drop_last());
        match T::parse_spec(pieces.last()) {
            Some(v) => head.push(v),
            None => head,
        }
    }
}

/// The sequence that a text decodes to: each piece parsed as it stands.
pub open spec fn decoded<T: TextElement>(s: Seq<char>) -> Seq<T::V> {
    keep_parsed::<T>(split(s))
}

/// The strings that a text decodes to: each piece trimmed of white space.
pub open spec fn decoded_trimmed(s: Seq<char>) -> Seq<Seq<char>> {
    split(s).map_values(|p: Seq<char>| trim(p))
}

/// An ordered sequence of values stored in one text column, each element
/// written as its display string and separated from the next by `DELIMITER`.
#[derive(Debug, PartialEq, Eq, Clone)]
pub struct SqlVec<T>(Vec<T>);

impl<T: View> View for SqlVec<T> {
    type V = Seq<T::V>;

    closed spec fn view(&self) -> Seq<T::V> {
        element_views(self.0@)
    }
}

impl<T: View> Default for SqlVec<T> {
    /// The empty sequence; the element type needs no default of its own.
    fn default() -> (r: Self)
        ensures
            r@ == Seq::<T::V>::empty(),
    {
        let r = SqlVec(Vec::new());
        proof {
            assert(r@ =~= Seq::<T::V>::empty());
        }
        r
    }
}

impl<T: TextElement> SqlVec<T> {
    /// Wraps the given items, in their order.
    pub fn new(items: Vec<T>) -> (r: Self)
        ensures
            r@ == element_views(items@),
    {
        SqlVec(items)
    }

    /// Gives up the wrapper and returns its items.
    pub fn into_inner(self) -> (r: Vec<T>)
        ensures
            element_views(r@) == self@,
    {
        self.0
    }

    /// The items, borrowed.
    pub fn inner(&self) -> (r: &Vec<T>)
        ensures
            element_views(r@) == self@,
    {
        &self.0
    }

    /// The encoded form: each element's display string, joined with the
    /// delimiter. The empty sequence encodes to the empty string.
    pub fn to_string(&self) -> (r: String)
        ensures
            r@ == encoded::<T>(self@),
    {
        let ghost items = self@;
        let mut out = String::new();
        let mut i: usize = 0;
        proof {
            assert(displays::<T>(items.subrange(0, 0)) =~= Seq::<Seq<char>>::empty());
            reveal_strlit("\u{F1}");
        }
        while i < self.0.len()
            invariant
                items == self@,
                items.len() == self.0@.len(),
                i <= self.0.len(),
                out@ == encoded::<T>(items.subrange(0, i as int)),
                "\u{F1}"@ == seq![DELIMITER],
            decreases self.0.len() - i,
        {
            let ghost before = out@;
            if i > 0 {
                out.append("\u{F1}");
            }
            let d = self.0[i].display();
            out.append(d.as_str());
            proof {
                let p = displays::<T>(items.subrange(0, i + 1));
                assert(p.drop_last() =~= displays::<T>(items.subrange(0, i as int)));
                assert(items[i as int] == self.0@[i as int]@);
                assert(p.last() == d@);
                if i == 0 {
                    assert(out@ =~= p[0]);
                } else {
                    assert(out@ =~= before + seq![DELIMITER] + d@);
                }
            }
            i = i + 1;
        }
        proof {
            assert(items.subrange(0, items.len() as int) =~= items);
        }
        out
    }

    /// The text value bound into a database column: the encoded form.
    pub fn to_sql(&self) -> (r: String)
        ensures
            r@ == encoded::<T>(self@),
    {
        self.to_string()
    }

    /// Splits `text` at each delimiter and parses each piece as it stands;
    /// a piece that does not parse is dropped without an error.
    pub fn decode(text: &str) -> (r: Self)
        ensures
            r@ == decoded::<T>(text@),
    {
        let segs = segments(text);
        let ghost sv = string_views(segs@);
        let mut out: Vec<T> = Vec::new();
        let mut i: usize = 0;
        proof {
            assert(sv.subrange(0, 0) =~= Seq::<Seq<char>>::empty());
            assert(element_views(out@) =~= Seq::<T::V>::empty());
        }
        while i < segs.len()
            invariant
                sv == string_views(segs@),
                sv == split(text@),
                i <= segs.len(),
                element_views(out@) == keep_parsed::<T>(sv.subrange(0, i as int)),
            decreases segs.len() - i,
        {
            let ghost prev = out@;
            let parsed = T::parse(segs[i].as_str());
            proof {
                assert(sv.subrange(0, i + 1).drop_last() =~= sv.subrange(0, i as int));
                assert(sv.subrange(0, i + 1).last() == segs@[i as int]@);
            }
            match parsed {
                Some(v) => {
                    out.push(v);
                    proof {
                        assert(element_views(out@) =~= element_views(prev).push(v@));
                    }
                },
                None => {},
            }
            i = i + 1;
        }
        proof {
            assert(sv.subrange(0, sv.len() as int) =~= sv);
        }
        SqlVec(out)
    }

    /// Reads a sequence from a column value. Text is decoded; any other kind
    /// of value is refused with `InvalidType`, and text that is not UTF-8 with
    /// `InvalidUtf8`.
    pub fn column_result(value: &StoredValue) -> (r: Result<Self, ExtractError>)
        ensures
            match value {
                StoredValue::Text(b) => if valid_utf8(b@) {
                    r matches Ok(v) && v@ == decoded::<T>(decode_utf8(b@))
                } else {
                    r matches Err(ExtractError::InvalidUtf8)
                },
                _ => r matches Err(ExtractError::InvalidType),
            },
    {
        match value {
            StoredValue::Text(b) => match utf8_text(b) {
                Some(s) => Ok(Self::decode(s)),
                None => Err(ExtractError::InvalidUtf8),
            },
            _ => Err(ExtractError::InvalidType),
        }
    }
}

impl SqlVec<String> {
    /// Splits `s` at each delimiter and keeps every piece, trimmed of white
    /// space. This never fails.
    pub fn from_str(s: &str) -> (r: Result<Self, core::convert::Infallible>)
        ensures
            r matches Ok(v) && v@ == decoded_trimmed(s@),
    {
        let segs = segments(s);
        let ghost sv = string_views(segs@);
        let mut out: Vec<String> = Vec::new();
        let mut i: usize = 0;
        while i < segs.len()
            invariant
                sv == string_views(segs@),
                sv == split(s@),
                i <= segs.len(),
                element_views(out@) == sv.subrange(0, i as int).map_values(
                    |p: Seq<char>| trim(p),
                ),
            decreases segs.len() - i,
        {
            let ghost prev = out@;
            let t = trimmed(segs[i].as_str());
            out.push(t);
            proof {
                assert(sv[i as int] == segs@[i as int]@);
                assert(element_views(out@) =~= element_views(prev).push(t@));
                assert(sv.subrange(0, i + 1).map_values(|p: Seq<char>| trim(p)) =~= sv.subrange(
                    0,
                    i as int,
                ).map_values(|p: Seq<char>| trim(p)).push(trim(sv[i as int])));
                assert(element_views(out@) =~= sv.subrange(0, i + 1).map_values(
                    |p: Seq<char>| trim(p),
                ));
            }
            i = i + 1;
        }
        proof {
            assert(sv.subrange(0, sv.len() as int) =~= sv);
        }
        Ok(SqlVec(out))
    }
}

} // verus!
