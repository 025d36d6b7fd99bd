//! Character-level helpers shared by the textual formats of the vault.

use vstd::prelude::*;
use vstd::utf8::{decode_utf8, valid_utf8};

verus! {

/// Calls `String::from_utf8`.
///
/// Trusted: it succeeds exactly on valid UTF-8, and then holds the
/// characters that the bytes encode.
#[verifier::external_body]
pub(crate) fn text_from_utf8(bytes: Vec<u8>) -> (res: Option<String>)
    ensures
        match res {
            Some(text) => valid_utf8(bytes@) && text@ == decode_utf8(bytes@),
            None => !valid_utf8(bytes@),
        },
{
    String::from_utf8(bytes).ok()
}

/// `String::push` appends one character to the end of the string.
pub assume_specification[ std::string::String::push ](s: &mut std::string::String, c: char)
    ensures
        final(s)@ == old(s)@.push(c),
;

/// The views of a sequence of strings.
pub open spec fn texts(v: Seq<String>) -> Seq<Seq<char>> {
    Seq::new(v.len(), |i: int| v[i]@)
}

/// The fields of `s` when it is cut at every occurrence of `sep`.
///
/// A text without separator is its own single field; every separator opens
/// a new (possibly empty) field.
pub open spec fn split(s: Seq<char>, sep: char) -> Seq<Seq<char>>
    decreases s.len(),
{
    if s.len() == 0 {
        seq![Seq::<char>::empty()]
    } else {
        let before = split(s.drop_last(), sep);
        if s.last() == sep {
            before.push(Seq::<char>::empty())
        } else {
            before.drop_last().push(before.last().push(s.last()))
        }
    }
}

/// The fields written one after the other with `sep` between them.
pub open spec fn joined(fields: Seq<Seq<char>>, sep: char) -> Seq<char>
    decreases fields.len(),
{
    if fields.len() == 0 {
        Seq::empty()
    } else if fields.len() == 1 {
        fields[0]
    } else {
        joined(fields.drop_last(), sep) + seq![sep] + fields.last()
    }
}

/// Splitting loses nothing: no field holds the separator, and the fields
/// joined by the separator are the text again.
pub proof fn lemma_split_joins_back(s: Seq<char>, sep: char)
    ensures
        joined(split(s, sep), sep) == s,
        forall|i: int| 0 <= i < split(s, sep).len() ==> !(#[trigger] split(s, sep)[i]).contains(sep),
    decreases s.len(),
{
    let fields = split(s, sep);
    if s.len() == 0 {
        assert(joined(fields, sep) =~= s);
    } else {
        let t = s.drop_last();
        let c = s.last();
        let before = split(t, sep);
        lemma_split_joins_back(t, sep);
        lemma_split_first(t, sep);
        assert(t.push(c) =~= s);
        if c == sep {
            assert(fields.drop_last() == before);
            assert(joined(fields, sep) =~= t.push(c));
        } else {
            let grown = before.last().push(c);
            assert(!grown.contains(sep)) by {
                if grown.contains(sep) {
                    let i = choose|i: int| 0 <= i < grown.len() && grown[i] == sep;
                    if i < before.last().len() {
                        assert(before.last()[i] == sep);
                    }
                }
            }
            if before.len() == 1 {
                assert(fields =~= seq![grown]);
                assert(joined(fields, sep) =~= t.push(c));
            } else {
                assert(fields.drop_last() == before.drop_last());
                assert(joined(fields, sep) =~= (joined(before.drop_last(), sep) + seq![sep]
                    + before.last()).push(c));
            }
        }
    }
}

/// A text that holds no separator is a single field.
pub proof fn lemma_split_plain(s: Seq<char>, sep: char)
    requires
        !s.contains(sep),
    ensures
        split(s, sep) == seq![s],
    decreases s.len(),
{
    if s.len() == 0 {
        assert(s == Seq::<char>::empty());
    } else {
        let t = s.drop_last();
        assert forall|c: char| t.contains(c) implies s.contains(c) by {
            let i = choose|i: int| 0 <= i < t.len() && t[i] == c;
            assert(s[i] == c);
        }
        lemma_split_plain(t, sep);
        assert(s.last() != sep) by {
            assert(s[s.len() - 1] == s.last());
        }
        assert(t.push(s.last()) == s);
        assert(seq![t].drop_last().push(seq![t].last().push(s.last())) == seq![s]);
    }
}

/// Appending a separator and a separator-free text adds exactly that text
/// as one more field.
pub proof fn lemma_split_append(a: Seq<char>, b: Seq<char>, sep: char)
    requires
        !b.contains(sep),
    ensures
        split(a + seq![sep] + b, sep) == split(a, sep).push(b),
    decreases b.len(),
{
    let whole = a + seq![sep] + b;
    if b.len() == 0 {
        assert(whole.drop_last() == a);
        assert(whole.last() == sep);
        assert(b == Seq::<char>::empty());
    } else {
        let t = b.drop_last();
        assert forall|c: char| t.contains(c) implies b.contains(c) by {
            let i = choose|i: int| 0 <= i < t.len() && t[i] == c;
            assert(b[i] == c);
        }
        lemma_split_append(a, t, sep);
        assert(whole.drop_last() == a + seq![sep] + t);
        assert(whole.last() == b.last());
        assert(b.last() != sep) by {
            assert(b[b.len() - 1] == b.last());
        }
        assert(t.push(b.last()) == b);
        let before = split(a, sep).push(t);
        assert(before.drop_last() == split(a, sep));
        assert(before.last() == t);
    }
}

/// The first field opens the text: it is the whole text where there is
/// no second field, and else the separator follows it.
pub proof fn lemma_split_first(s: Seq<char>, sep: char)
    ensures
        split(s, sep).len() >= 1,
        split(s, sep)[0].is_prefix_of(s),
        split(s, sep).len() == 1 ==> split(s, sep)[0] == s,
        split(s, sep).len() >= 2 ==> split(s, sep)[0].len() < s.len() && s[split(s, sep)[0].len() as int]
            == sep,
    decreases s.len(),
{
    if s.len() == 0 {
        assert(split(s, sep)[0] =~= s);
    } else {
        let t = s.drop_last();
        let before = split(t, sep);
        lemma_split_first(t, sep);
        let first = before[0];
        assert(first.is_prefix_of(s)) by {
            assert(s.subrange(0, first.len() as int) =~= t.subrange(0, first.len() as int));
        }
        if s.last() == sep {
            assert(split(s, sep)[0] == first);
            if before.len() == 1 {
                assert(s[t.len() as int] == sep);
            } else {
                assert(s[first.len() as int] == t[first.len() as int]);
            }
        } else {
            if before.len() == 1 {
                assert(split(s, sep) =~= seq![t.push(s.last())]);
                assert(t.push(s.last()) =~= s);
            } else {
                assert(split(s, sep)[0] == first);
                assert(s[first.len() as int] == t[first.len() as int]);
            }
        }
    }
}

/// The characters of `s`, in order.
pub fn chars_of(s: &str) -> (out: Vec<char>)
    ensures
        out@ == s@,
{
    let mut out: Vec<char> = Vec::new();
    for c in it: s.chars()
        invariant
            it.seq() == s@,
            out@ == s@.take(it.index() as int),
    {
        proof {
            assert(s@.take(it.index() + 1) == s@.take(it.index() as int).push(s@[it.index() as int]));
        }
        out.push(c);
    }
    proof {
        assert(s@.take(s@.len() as int) == s@);
    }
    out
}

/// Cuts `s` at every occurrence of `sep`.
pub fn split_fields(s: &str, sep: char) -> (out: Vec<String>)
    ensures
        texts(out@) == split(s@, sep),
{
    let mut out: Vec<String> = Vec::new();
    let mut current = String::new();
    for c in it: s.chars()
        invariant
            it.seq() == s@,
            texts(out@).push(current@) == split(s@.take(it.index() as int), sep),
    {
        proof {
            let t = s@.take(it.index() as int);
            let u = s@.take(it.index() + 1);
            assert(u.drop_last() == t);
            assert(u.last() == c);
        }
        let ghost before = texts(out@).push(current@);
        if c == sep {
            out.push(current);
            current = String::new();
            proof {
                assert(texts(out@) == before);
            }
        } else {
            current.push(c);
            proof {
                assert(before.drop_last() == texts(out@));
                assert(before.last().push(c) == current@);
            }
        }
    }
    proof {
        assert(s@.take(s@.len() as int) == s@);
    }
    let ghost before = texts(out@).push(current@);
    out.push(current);
    proof {
        assert(texts(out@) == before);
    }
    out
}

/// Whether two texts hold the same characters.
pub fn same_text(a: &str, b: &str) -> (same: bool)
    ensures
        same == (a@ == b@),
{
    let x = chars_of(a);
    let y = chars_of(b);
    if x.len() != y.len() {
        return false;
    }
    let mut i: usize = 0;
    while i < x.len()
        invariant
            x@ == a@,
            y@ == b@,
            x.len() == y.len(),
            i <= x.len(),
            forall|j: int| 0 <= j < i ==> x@[j] == y@[j],
        decreases x.len() - i,
    {
        if x[i] != y[i] {
            return false;
        }
        i += 1;
    }
    proof {
        assert(x@ =~= y@);
    }
    true
}

/// Whether `text` opens with `prefix`.
pub fn has_prefix(text: &str, prefix: &str) -> (opens: bool)
    ensures
        opens == prefix@.is_prefix_of(text@),
{
    let x = chars_of(text);
    let y = chars_of(prefix);
    if y.len() > x.len() {
        return false;
    }
    let mut i: usize = 0;
    while i < y.len()
        invariant
            x@ == text@,
            y@ == prefix@,
            y.len() <= x.len(),
            i <= y.len(),
            forall|j: int| 0 <= j < i ==> x@[j] == y@[j],
        decreases y.len() - i,
    {
        if x[i] != y[i] {
            proof {
                assert(text@.subrange(0, prefix@.len() as int)[i as int] != prefix@[i as int]);
            }
            return false;
        }
        i += 1;
    }
    proof {
        assert(text@.subrange(0, prefix@.len() as int) =~= prefix@);
    }
    true
}

/// A line without the carriage return that may end it.
pub open spec fn without_cr(raw: Seq<char>) -> Seq<char> {
    if raw.len() > 0 && raw.last() == '\r' {
        raw.drop_last()
    } else {
        raw
    }
}

/// Takes the carriage return off the end of a line, if there is one.
pub fn strip_cr(raw: &str) -> (line: String)
    ensures
        line@ == without_cr(raw@),
{
    let chars = chars_of(raw);
    let n = chars.len();
    let keep = if n > 0 && chars[n - 1] == '\r' {
        n - 1
    } else {
        n
    };
    let mut line = String::new();
    let mut i: usize = 0;
    while i < keep
        invariant
            i <= keep <= chars.len(),
            line@ == chars@.take(i as int),
        decreases keep - i,
    {
        line.push(chars[i]);
        proof {
            assert(line@ =~= chars@.take(i + 1));
        }
        i += 1;
    }
    proof {
        assert(chars@.take(n as int) =~= chars@);
        assert(chars@.take(keep as int) =~= without_cr(raw@));
    }
    line
}

} // verus!
