use vstd::prelude::*;

verus! {

/// The character placed between the elements of an encoded sequence.
pub const DELIMITER: char = '\u{F1}';

/// The pieces joined with one delimiter between neighbours.
pub open spec fn join(parts: Seq<Seq<char>>) -> Seq<char>
    decreases parts.len(),
{
    if parts.len() == 0 {
        Seq::empty()
    } else if parts.len() == 1 {
        parts[0]
    } else {
        join(parts.drop_last()) + seq![DELIMITER] + parts.last()
    }
}

/// The pieces of `s` between delimiters, in order. Like `str::split`, it
/// always yields at least one piece: the empty text is one empty piece.
pub open spec fn split(s: Seq<char>) -> Seq<Seq<char>>
    decreases s.len(),
{
    if s.len() == 0 {
        seq![Seq::empty()]
    } else {
        let head = split(s.drop_last());
        if s.last() == DELIMITER {
            head.push(Seq::empty())
        } else {
            head.update(head.len() - 1, head.last().push(s.last()))
        }
    }
}

pub open spec fn free_of_delimiter(s: Seq<char>) -> bool {
    !s.contains(DELIMITER)
}

/// Characters with Unicode's White_Space property.
pub open spec fn is_white_space(c: char) -> bool {
    let u = c as u32;
    (0x9 <= u && u <= 0xD) || u == 0x20 || u == 0x85 || u == 0xA0 || u == 0x1680 || (0x2000
        <= u && u <= 0x200A) || u == 0x2028 || u == 0x2029 || u == 0x202F || u == 0x205F || u
        == 0x3000
}

pub open spec fn trim_start(s: Seq<char>) -> Seq<char>
    decreases s.len(),
{
    if s.len() > 0 && is_white_space(s[0]) {
        trim_start(s.drop_first())
    } else {
        s
    }
}

pub open spec fn trim_end(s: Seq<char>) -> Seq<char>
    decreases s.len(),
{
    if s.len() > 0 && is_white_space(s.last()) {
        trim_end(s.drop_last())
    } else {
        s
    }
}

/// `s` without its leading and trailing white space.
pub open spec fn trim(s: Seq<char>) -> Seq<char> {
    trim_end(trim_start(s))
}

pub open spec fn string_views(v: Seq<String>) -> Seq<Seq<char>> {
    v.map_values(|p: String| p@)
}

pub proof fn lemma_split_nonempty(s: Seq<char>)
    ensures
        split(s).len() >= 1,
    decreases s.len(),
{
    if s.len() > 0 {
        lemma_split_nonempty(s.drop_last());
    }
}

/// Appending text without a delimiter extends the last piece.
pub proof fn lemma_split_extend(a: Seq<char>, b: Seq<char>)
    requires
        free_of_delimiter(b),
    ensures
        split(a + b) == split(a).update(split(a).len() - 1, split(a).last() + b),
    decreases b.len(),
{
    lemma_split_nonempty(a);
    if b.len() == 0 {
        assert(a + b =~= a);
        assert(split(a).last() + b =~= split(a).last());
        assert(split(a).update(split(a).len() - 1, split(a).last()) =~= split(a));
    } else {
        let b0 = b.drop_last();
        assert(!b0.contains(DELIMITER)) by {
            if b0.contains(DELIMITER) {
                let k = choose|k: int| 0 <= k < b0.len() && b0[k] == DELIMITER;
                assert(b[k] == DELIMITER);
            }
        }
        lemma_split_extend(a, b0);
        assert((a + b).drop_last() =~= a + b0);
        assert((a + b).last() == b.last());
        assert(b.last() != DELIMITER) by {
            assert(b[b.len() - 1] == b.last());
        }
        assert((split(a).last() + b0).push(b.last()) =~= split(a).last() + b);
        assert(split(a + b) =~= split(a).update(split(a).len() - 1, split(a).last() + b));
    }
}

/// Splitting what was joined gives back the pieces, when none holds a delimiter.
pub proof fn lemma_split_join(parts: Seq<Seq<char>>)
    requires
        parts.len() >= 1,
        forall|i: int| 0 <= i < parts.len() ==> free_of_delimiter(#[trigger] parts[i]),
    ensures
        split(join(parts)) == parts,
    decreases parts.len(),
{
    let e = Seq::<char>::empty();
    if parts.len() == 1 {
        lemma_split_extend(e, parts[0]);
        assert(e + parts[0] =~= parts[0]);
        assert(split(e) =~= seq![e]);
        assert(split(parts[0]) =~= parts);
    } else {
        let init = parts.drop_last();
        assert forall|i: int| 0 <= i < init.len() implies free_of_delimiter(#[trigger] init[i]) by {
            assert(init[i] == parts[i]);
        }
        lemma_split_join(init);
        let j = join(init);
        let jd = j.push(DELIMITER);
        assert(jd.drop_last() =~= j);
        assert(split(jd) == split(j).push(e));
        assert(free_of_delimiter(parts[parts.len() - 1]));
        lemma_split_extend(jd, parts.last());
        assert(jd + parts.last() =~= join(parts));
        assert(e + parts.last() =~= parts.last());
        assert(split(join(parts)) =~= parts);
    }
}

/// Relies on `str::trim`: it removes leading and trailing characters that have
/// Unicode's White_Space property, and nothing else.
#[verifier::external_body]
fn trim_str(s: &str) -> (r: &str)
    ensures
        r@ == trim(s@),
{
    s.trim()
}

/// An owned copy of `s` without its leading and trailing white space.
pub fn trimmed(s: &str) -> (r: String)
    ensures
        r@ == trim(s@),
{
    String::from_str(trim_str(s))
}

/// The pieces of `s` between delimiters, in order.
pub fn segments(s: &str) -> (r: Vec<String>)
    ensures
        string_views(r@) == split(s@),
{
    let n = s.unicode_len();
    let mut out: Vec<String> = Vec::new();
    let mut start: usize = 0;
    let mut i: usize = 0;
    proof {
        let e = Seq::<char>::empty();
        assert(s@.subrange(0, 0) =~= e);
        assert(string_views(out@) =~= Seq::<Seq<char>>::empty());
        assert(split(e) =~= string_views(out@).push(e));
    }
    while i < n
        invariant
            n == s@.len(),
            start <= i <= n,
            split(s@.subrange(0, i as int)) == string_views(out@).push(
                s@.subrange(start as int, i as int),
            ),
        decreases n - i,
    {
        let c = s.get_char(i);
        let ghost prefix = s@.subrange(0, i + 1);
        proof {
            assert(prefix.drop_last() =~= s@.subrange(0, i as int));
            assert(prefix.last() == c);
        }
        if c == DELIMITER {
            let piece = s.substring_char(start, i);
            let ghost prev = out@;
            out.push(String::from_str(piece));
            start = i + 1;
            proof {
                assert(string_views(out@) =~= string_views(prev).push(piece@));
                assert(s@.subrange(start as int, i + 1) =~= Seq::<char>::empty());
            }
        } else {
            proof {
                assert(s@.subrange(start as int, i as int).push(c) =~= s@.subrange(
                    start as int,
                    i + 1,
                ));
                assert(split(prefix) =~= string_views(out@).push(
                    s@.subrange(start as int, i + 1),
                ));
            }
        }
        i = i + 1;
    }
    let piece = s.substring_char(start, n);
    let ghost before = out@;
    out.push(String::from_str(piece));
    proof {
        assert(s@.subrange(0, n as int) =~= s@);
        assert(string_views(out@) =~= string_views(before).push(piece@));
    }
    out
}

} // verus!
