use vstd::prelude::*;

use crate::element::TextElement;
use crate::sql_vec::{decoded, decoded_trimmed, displays, encoded, keep_parsed};
use crate::text::{free_of_delimiter, lemma_split_join, split, trim};
use vstd::utf8::{decode_utf8, encode_utf8, encode_utf8_decode_utf8, encode_utf8_valid_utf8, valid_utf8};

verus! {

/// The number of pieces that do not parse.
pub open spec fn unparsed_count<T: TextElement>(pieces: Seq<Seq<char>>) -> nat
    decreases pieces.len(),
{
    if pieces.len() == 0 {
        0
    } else {
        unparsed_count::<T>(pieces.drop_last()) + if T::parse_spec(pieces.last()) is None {
            1nat
        } else {
            0nat
        }
    }
}

/// No element's display string holds the delimiter.
pub open spec fn displays_free_of_delimiter<T: TextElement>(items: Seq<T::V>) -> bool {
    forall|i: int| 0 <= i < items.len() ==> free_of_delimiter(T::display_spec(#[trigger] items[i]))
}

proof fn lemma_keep_parsed_all<T: TextElement>(items: Seq<T::V>)
    requires
        forall|i: int|
            0 <= i < items.len() ==> T::parse_spec(T::display_spec(#[trigger] items[i]))
                == Some(items[i]),
    ensures
        keep_parsed::<T>(displays::<T>(items)) == items,
    decreases items.len(),
{
    if items.len() > 0 {
        let init = items.drop_last();
        assert forall|i: int| 0 <= i < init.len() implies T::parse_spec(
            T::display_spec(#[trigger] init[i]),
        ) == Some(init[i]) by {
            assert(init[i] == items[i]);
        }
        lemma_keep_parsed_all::<T>(init);
        assert(displays::<T>(items).drop_last() =~= displays::<T>(init));
        assert(T::parse_spec(T::display_spec(items[items.len() - 1])) == Some(items.last()));
        assert(init.push(items.last()) =~= items);
    }
}

/// Order is kept: when no display string holds the delimiter, decoding the
/// encoded form gives, in their original order, the values that the elements'
/// display strings parse to. The empty sequence is left out where the empty
/// text parses to a value.
pub proof fn lemma_order_kept<T: TextElement>(items: Seq<T::V>)
    requires
        displays_free_of_delimiter::<T>(items),
        items.len() > 0 || T::parse_spec(Seq::empty()) is None,
    ensures
        decoded::<T>(encoded::<T>(items)) == keep_parsed::<T>(displays::<T>(items)),
{
    let ds = displays::<T>(items);
    if items.len() > 0 {
        assert forall|i: int| 0 <= i < ds.len() implies free_of_delimiter(#[trigger] ds[i]) by {
            assert(ds[i] == T::display_spec(items[i]));
        }
        lemma_split_join(ds);
    } else {
        let e = Seq::<char>::empty();
        assert(ds =~= Seq::<Seq<char>>::empty());
        assert(split(e) =~= seq![e]);
        assert(seq![e].drop_last() =~= Seq::<Seq<char>>::empty());
    }
}

/// Round trip: when every element's display string is free of the delimiter
/// and parses back to the element, decoding the encoded form gives the
/// sequence back. The empty sequence is left out where the empty text parses
/// to a value.
pub proof fn lemma_round_trip<T: TextElement>(items: Seq<T::V>)
    requires
        displays_free_of_delimiter::<T>(items),
        forall|i: int|
            0 <= i < items.len() ==> T::parse_spec(T::display_spec(#[trigger] items[i]))
                == Some(items[i]),
        items.len() > 0 || T::parse_spec(Seq::empty()) is None,
    ensures
        decoded::<T>(encoded::<T>(items)) == items,
{
    lemma_order_kept::<T>(items);
    lemma_keep_parsed_all::<T>(items);
}

/// Round trip for strings read back with trimming: a non-empty sequence of
/// strings without the delimiter and without surrounding white space comes
/// back unchanged.
pub proof fn lemma_round_trip_trimmed(items: Seq<Seq<char>>)
    requires
        items.len() > 0,
        forall|i: int|
            0 <= i < items.len() ==> free_of_delimiter(#[trigger] items[i]) && trim(items[i])
                == items[i],
    ensures
        decoded_trimmed(encoded::<String>(items)) == items,
{
    assert(displays::<String>(items) =~= items);
    lemma_split_join(items);
    assert(decoded_trimmed(encoded::<String>(items)) =~= items);
}

/// The empty sequence encodes to the empty text. The empty text is one empty
/// piece: it decodes to the value that the empty text parses to, if any, and
/// with trimming to one empty string.
pub proof fn lemma_empty<T: TextElement>()
    ensures
        encoded::<T>(Seq::empty()) == Seq::<char>::empty(),
        decoded::<T>(Seq::empty()) == match T::parse_spec(Seq::empty()) {
            Some(v) => seq![v],
            None => Seq::<T::V>::empty(),
        },
        decoded_trimmed(Seq::empty()) == seq![Seq::<char>::empty()],
{
    let e = Seq::<char>::empty();
    assert(displays::<T>(Seq::empty()) =~= Seq::<Seq<char>>::empty());
    assert(split(e) =~= seq![e]);
    assert(seq![e].drop_last() =~= Seq::<Seq<char>>::empty());
    assert(seq![e].last() == e);
    assert(keep_parsed::<T>(seq![e].drop_last()) == Seq::<T::V>::empty());
    if let Some(v) = T::parse_spec(e) {
        assert(Seq::<T::V>::empty().push(v) =~= seq![v]);
    }
    assert(trim(e) =~= e) by {
        reveal_with_fuel(crate::text::trim_start, 1);
        reveal_with_fuel(crate::text::trim_end, 1);
    }
    assert(decoded_trimmed(e) =~= seq![e]);
}

proof fn lemma_keep_parsed_len<T: TextElement>(pieces: Seq<Seq<char>>)
    ensures
        keep_parsed::<T>(pieces).len() + unparsed_count::<T>(pieces) == pieces.len(),
    decreases pieces.len(),
{
    if pieces.len() > 0 {
        lemma_keep_parsed_len::<T>(pieces.drop_last());
    }
}

/// Pieces that do not parse are dropped: of the pieces between delimiters,
/// exactly those that parse remain, in their order, and their number is the
/// number of pieces less the number that do not parse.
pub proof fn lemma_silent_drop<T: TextElement>(text: Seq<char>)
    ensures
        decoded::<T>(text) == keep_parsed::<T>(split(text)),
        decoded::<T>(text).len() == split(text).len() - unparsed_count::<T>(split(text)),
{
    lemma_keep_parsed_len::<T>(split(text));
}

/// Binding then extracting: the encoded text, stored as UTF-8 bytes, is valid
/// UTF-8 and reads back as the same text, so extraction decodes exactly the
/// encoded form.
pub proof fn lemma_stored_text_reads_back<T: TextElement>(items: Seq<T::V>)
    ensures
        valid_utf8(encode_utf8(encoded::<T>(items))),
        decoded::<T>(decode_utf8(encode_utf8(encoded::<T>(items)))) == decoded::<T>(
            encoded::<T>(items),
        ),
{
    encode_utf8_valid_utf8(encoded::<T>(items));
    encode_utf8_decode_utf8(encoded::<T>(items));
}

} // verus!
