//! Walking a document and replacing the text leaves that a transform
//! names.

use vstd::prelude::*;
use crate::errors::CulperError;
use crate::vault::{leaf_opened, parsed, unseal_leaf, SealedVault, UnsealedVault};

verus! {

broadcast use vstd::std_specs::vec::axiom_vec_index_decreases;

/// A number of a document. A float is held by the bits of its IEEE 754
/// double.
#[derive(Debug, Clone, Copy, PartialEq, Eq, Structural)]
pub enum Number {
    Integer(i64),
    Unsigned(u64),
    Float(u64),
}

/// A node of a document.
#[derive(Debug, PartialEq, Eq)]
pub enum Value {
    Null,
    Bool(bool),
    Number(Number),
    String(String),
    Sequence(Vec<Value>),
    Mapping(Mapping),
}

/// A keyed node: its entries in document order.
#[derive(Debug, PartialEq, Eq)]
pub struct Mapping {
    pub entries: Vec<(Value, Value)>,
}

/// A node as plain mathematical values.
pub enum Tree {
    Null,
    Bool(bool),
    Number(Number),
    String(Seq<char>),
    Sequence(Seq<Tree>),
    Mapping(Seq<(Tree, Tree)>),
}

impl Value {
    /// The node as plain mathematical values.
    pub open spec fn tree(self) -> Tree
        decreases self,
    {
        match self {
            Value::Null => Tree::Null,
            Value::Bool(b) => Tree::Bool(b),
            Value::Number(n) => Tree::Number(n),
            Value::String(s) => Tree::String(s@),
            Value::Sequence(items) => Tree::Sequence(
                Seq::new(items@.len(), |i: int| if 0 <= i < items@.len() { items@[i].tree() } else { Tree::Null }),
            ),
            Value::Mapping(m) => Tree::Mapping(m.pairs()),
        }
    }
}

impl Mapping {
    /// The entries as plain mathematical values.
    pub open spec fn pairs(self) -> Seq<(Tree, Tree)>
        decreases self,
    {
        Seq::new(
            self.entries@.len(),
            |i: int|
                if 0 <= i < self.entries@.len() {
                    (self.entries@[i].0.tree(), self.entries@[i].1.tree())
                } else {
                    (Tree::Null, Tree::Null)
                },
        )
    }
}

/// The text leaves that a traversal hands to its transform, in document
/// order: the values of the mapping that are texts, and those of the
/// mappings nested in it as values. A text inside a sequence is part of
/// the sequence and no leaf, and a key is no leaf.
pub open spec fn leaves(entries: Seq<(Tree, Tree)>) -> Seq<Seq<char>>
    decreases entries,
{
    if entries.len() == 0 {
        Seq::empty()
    } else {
        leaves(entries.drop_last()) + entry_leaves(entries.last())
    }
}

/// The text leaves of one entry.
pub open spec fn entry_leaves(entry: (Tree, Tree)) -> Seq<Seq<char>>
    decreases entry,
{
    match entry {
        (_, Tree::String(s)) => seq![s],
        (_, Tree::Mapping(inner)) => leaves(inner),
        _ => Seq::empty(),
    }
}

/// The mapping rebuilt with a reply for each of its text leaves, in
/// document order: a leaf with a reply becomes the reply, and everything
/// else stays as it is. The entries keep their number, their order and
/// their keys.
pub open spec fn replaced(entries: Seq<(Tree, Tree)>, replies: Seq<Option<Seq<char>>>) -> Seq<
    (Tree, Tree),
>
    decreases entries,
{
    if entries.len() == 0 {
        Seq::empty()
    } else {
        let front = entries.drop_last();
        let n = leaves(front).len() as int;
        replaced(front, replies.take(n)).push(replaced_entry(entries.last(), replies.skip(n)))
    }
}

/// One entry rebuilt with the replies for its text leaves. A text takes
/// its reply, a mapping is rebuilt, and any other value stays; the key is
/// the key of the entry.
pub open spec fn replaced_entry(entry: (Tree, Tree), replies: Seq<Option<Seq<char>>>) -> (Tree, Tree)
    decreases entry,
{
    match entry {
        (key, Tree::String(s)) => (
            key,
            Tree::String(
                if replies.len() > 0 && replies[0] is Some {
                    replies[0]->0
                } else {
                    s
                },
            ),
        ),
        (key, Tree::Mapping(inner)) => (key, Tree::Mapping(replaced(inner, replies))),
        _ => entry,
    }
}

/// The leaves with the replies put in their places: a leaf with a reply
/// becomes the reply, a leaf without one stays.
pub open spec fn substituted(texts: Seq<Seq<char>>, replies: Seq<Option<Seq<char>>>) -> Seq<Seq<char>> {
    Seq::new(
        texts.len(),
        |i: int|
            if 0 <= i < replies.len() && replies[i] is Some {
                replies[i]->0
            } else {
                texts[i]
            },
    )
}

/// A rebuilt mapping has as many entries as the mapping it was rebuilt
/// from, under the same keys in the same order.
pub proof fn lemma_replaced_keeps_keys(entries: Seq<(Tree, Tree)>, replies: Seq<Option<Seq<char>>>)
    ensures
        replaced(entries, replies).len() == entries.len(),
        forall|i: int|
            0 <= i < entries.len() ==> (#[trigger] replaced(entries, replies)[i]).0 == entries[i].0,
    decreases entries.len(),
{
    if entries.len() > 0 {
        let front = entries.drop_last();
        let n = leaves(front).len() as int;
        lemma_replaced_keeps_keys(front, replies.take(n));
        assert forall|i: int| 0 <= i < entries.len() implies (#[trigger] replaced(
            entries,
            replies,
        )[i]).0 == entries[i].0 by {
            if i < front.len() {
                assert(replaced(entries, replies)[i] == replaced(front, replies.take(n))[i]);
                assert(front[i] == entries[i]);
            } else {
                assert(replaced(entries, replies)[i] == replaced_entry(
                    entries.last(),
                    replies.skip(n),
                ));
                assert(entries[i] == entries.last());
            }
        }
    }
}

/// Where no leaf gets a reply, the rebuilt mapping is the mapping itself:
/// every key and every value, null values among them, stands where it
/// stood.
pub proof fn lemma_no_reply_changes_nothing(
    entries: Seq<(Tree, Tree)>,
    replies: Seq<Option<Seq<char>>>,
)
    requires
        replies.len() == leaves(entries).len(),
        forall|i: int| 0 <= i < replies.len() ==> (#[trigger] replies[i]) is None,
    ensures
        replaced(entries, replies) == entries,
    decreases entries, 1int,
{
    if entries.len() > 0 {
        let front = entries.drop_last();
        let n = leaves(front).len() as int;
        assert forall|i: int| 0 <= i < replies.take(n).len() implies (#[trigger] replies.take(
            n,
        )[i]) is None by {
            assert(replies.take(n)[i] == replies[i]);
        }
        assert forall|i: int| 0 <= i < replies.skip(n).len() implies (#[trigger] replies.skip(
            n,
        )[i]) is None by {
            assert(replies.skip(n)[i] == replies[i + n]);
        }
        lemma_no_reply_changes_nothing(front, replies.take(n));
        lemma_no_reply_changes_no_entry(entries.last(), replies.skip(n));
        assert(front.push(entries.last()) == entries);
    }
}

/// Where no leaf gets a reply, a rebuilt entry is the entry itself.
pub proof fn lemma_no_reply_changes_no_entry(entry: (Tree, Tree), replies: Seq<Option<Seq<char>>>)
    requires
        replies.len() == entry_leaves(entry).len(),
        forall|i: int| 0 <= i < replies.len() ==> (#[trigger] replies[i]) is None,
    ensures
        replaced_entry(entry, replies) == entry,
    decreases entry, 0int,
{
    match entry {
        (key, Tree::Mapping(inner)) => {
            lemma_no_reply_changes_nothing(inner, replies);
        },
        _ => {},
    }
}

/// A rebuilt mapping has the leaves of the mapping it was rebuilt from,
/// in their order, each replaced by its reply where it has one: nothing
/// else becomes of a leaf.
pub proof fn lemma_replaced_leaves(entries: Seq<(Tree, Tree)>, replies: Seq<Option<Seq<char>>>)
    requires
        replies.len() == leaves(entries).len(),
    ensures
        leaves(replaced(entries, replies)) == substituted(leaves(entries), replies),
    decreases entries, 1int,
{
    if entries.len() == 0 {
        assert(substituted(leaves(entries), replies) == Seq::<Seq<char>>::empty());
    } else {
        let front = entries.drop_last();
        let n = leaves(front).len() as int;
        let rebuilt = replaced(front, replies.take(n));
        let last = replaced_entry(entries.last(), replies.skip(n));
        lemma_replaced_leaves(front, replies.take(n));
        lemma_replaced_entry_leaves(entries.last(), replies.skip(n));
        assert(rebuilt.push(last).drop_last() == rebuilt);
        assert(rebuilt.push(last).last() == last);
        assert(substituted(leaves(entries), replies) == substituted(leaves(front), replies.take(n))
            + substituted(entry_leaves(entries.last()), replies.skip(n)));
    }
}

/// A rebuilt entry has the leaves of the entry it was rebuilt from, each
/// replaced by its reply where it has one.
pub proof fn lemma_replaced_entry_leaves(entry: (Tree, Tree), replies: Seq<Option<Seq<char>>>)
    requires
        replies.len() == entry_leaves(entry).len(),
    ensures
        entry_leaves(replaced_entry(entry, replies)) == substituted(entry_leaves(entry), replies),
    decreases entry, 0int,
{
    match entry {
        (key, Tree::String(s)) => {
            assert(entry_leaves(replaced_entry(entry, replies)) == substituted(
                entry_leaves(entry),
                replies,
            ));
        },
        (key, Tree::Mapping(inner)) => {
            lemma_replaced_leaves(inner, replies);
        },
        _ => {
            assert(entry_leaves(replaced_entry(entry, replies)) == substituted(
                entry_leaves(entry),
                replies,
            ));
        },
    }
}

/// The replies of a transform as plain mathematical values.
pub open spec fn replies_of(answers: Seq<Option<String>>) -> Seq<Option<Seq<char>>> {
    Seq::new(
        answers.len(),
        |i: int|
            match answers[i] {
                Some(t) => Some(t@),
                None => None,
            },
    )
}

/// Whether `answers` are replies that the transform gave, or could have
/// given, to `asked`, one for one.
pub open spec fn answered<F: Fn(&String) -> Result<Option<String>, CulperError>>(
    f: F,
    asked: Seq<String>,
    answers: Seq<Option<String>>,
) -> bool {
    &&& asked.len() == answers.len()
    &&& forall|i: int|
        0 <= i < asked.len() ==> call_ensures(
            f,
            (&#[trigger] asked[i],),
            Ok::<Option<String>, CulperError>(answers[i]),
        )
}

impl Value {
    /// A copy of the node.
    pub fn duplicate(&self) -> (copy: Value)
        ensures
            copy.tree() == self.tree(),
        decreases self,
    {
        match self {
            Value::Null => Value::Null,
            Value::Bool(b) => Value::Bool(*b),
            Value::Number(n) => Value::Number(*n),
            Value::String(s) => Value::String(s.clone()),
            Value::Sequence(items) => {
                let mut copies: Vec<Value> = Vec::new();
                let mut i: usize = 0;
                while i < items.len()
                    invariant
                        *self == Value::Sequence(*items),
                        i <= items.len(),
                        copies.len() == i,
                        forall|j: int| 0 <= j < i ==> (#[trigger] copies@[j]).tree() == items@[j].tree(),
                    decreases items.len() - i,
                {
                    proof {
                        vstd::std_specs::vec::axiom_vec_index_decreases(*items, i as int);
                        assert(self->Sequence_0 == *items);
                        assert(decreases_to!(*self => self->Sequence_0));
                        assert(decreases_to!(*items => items[i as int]));
                    }
                    copies.push(items[i].duplicate());
                    i += 1;
                }
                let copy = Value::Sequence(copies);
                proof {
                    assert(copy.tree()->Sequence_0 =~= self.tree()->Sequence_0);
                }
                copy
            },
            Value::Mapping(m) => Value::Mapping(m.duplicate()),
        }
    }
}

impl Mapping {
    /// A mapping without entries.
    pub fn new() -> (m: Mapping)
        ensures
            m.pairs() == Seq::<(Tree, Tree)>::empty(),
    {
        let m = Mapping { entries: Vec::new() };
        proof {
            assert(m.pairs() =~= Seq::empty());
        }
        m
    }

    /// A copy of the mapping.
    pub fn duplicate(&self) -> (copy: Mapping)
        ensures
            copy.pairs() == self.pairs(),
        decreases self,
    {
        let mut entries: Vec<(Value, Value)> = Vec::new();
        let mut i: usize = 0;
        while i < self.entries.len()
            invariant
                i <= self.entries.len(),
                entries.len() == i,
                forall|j: int|
                    0 <= j < i ==> (#[trigger] entries@[j]).0.tree() == self.entries@[j].0.tree()
                        && entries@[j].1.tree() == self.entries@[j].1.tree(),
            decreases self.entries.len() - i,
        {
            let key = self.entries[i].0.duplicate();
            let value = self.entries[i].1.duplicate();
            entries.push((key, value));
            i += 1;
        }
        let copy = Mapping { entries };
        proof {
            assert(copy.pairs() =~= self.pairs());
        }
        copy
    }
}

/// Whether asking the transform about `asked`, one leaf after the other,
/// ended in the failure `e` at the last of them, after it had given
/// `answers` for all that come before.
pub open spec fn failed<F: Fn(&String) -> Result<Option<String>, CulperError>>(
    f: F,
    asked: Seq<String>,
    answers: Seq<Option<String>>,
    e: CulperError,
) -> bool {
    &&& asked.len() == answers.len() + 1
    &&& answered(f, asked.drop_last(), answers)
    &&& call_ensures(f, (&asked.last(),), Err::<Option<String>, CulperError>(e))
}

/// Whether `asked` are the first text leaves of the entries, in document
/// order.
pub open spec fn first_leaves(asked: Seq<String>, entries: Seq<(Tree, Tree)>) -> bool {
    &&& asked.len() <= leaves(entries).len()
    &&& crate::text::texts(asked) == leaves(entries).take(asked.len() as int)
}

/// Rebuilds a mapping as [`traverse_yml`] does, and says which leaves the
/// transform was asked about and what it answered.
fn rebuild<F>(value: &Mapping, f: &F) -> (res: Result<
    (Mapping, Ghost<Seq<String>>, Ghost<Seq<Option<String>>>),
    CulperError,
>) where F: Fn(&String) -> Result<Option<String>, CulperError>
    requires
        forall|s: String| call_requires(*f, (&s,)),
    ensures
        match res {
            Ok((out, asked, answers)) => {
                &&& answered(*f, asked@, answers@)
                &&& crate::text::texts(asked@) == leaves(value.pairs())
                &&& out.pairs() == replaced(value.pairs(), replies_of(answers@))
            },
            Err(e) => exists|asked: Seq<String>, answers: Seq<Option<String>>|
                #[trigger] failed(*f, asked, answers, e) && first_leaves(asked, value.pairs()),
        },
    decreases value,
{
    let ghost pairs = value.pairs();
    let mut out: Vec<(Value, Value)> = Vec::new();
    let ghost mut asked: Seq<String> = Seq::empty();
    let ghost mut answers: Seq<Option<String>> = Seq::empty();
    let mut i: usize = 0;
    proof {
        assert(pairs.take(0) =~= Seq::empty());
        assert(crate::text::texts(asked) =~= Seq::empty());
        assert((Mapping { entries: out }).pairs() =~= Seq::empty());
    }
    while i < value.entries.len()
        invariant
            i <= value.entries.len(),
            pairs == value.pairs(),
            forall|s: String| call_requires(*f, (&s,)),
            answered(*f, asked, answers),
            crate::text::texts(asked) == leaves(pairs.take(i as int)),
            (Mapping { entries: out }).pairs() == replaced(pairs.take(i as int), replies_of(answers)),
        decreases value.entries.len() - i,
    {
        let ghost entry = pairs[i as int];
        let ghost before = (Mapping { entries: out }).pairs();
        let ghost n = asked.len() as int;
        let ghost old_asked = asked;
        let ghost old_answers = answers;
        proof {
            assert(pairs.take(i + 1).drop_last() == pairs.take(i as int));
            assert(pairs.take(i + 1).last() == entry);
            assert(entry == (value.entries@[i as int].0.tree(), value.entries@[i as int].1.tree()));
            assert(replies_of(answers).take(n) =~= replies_of(answers));
            assert(replies_of(answers).skip(n) =~= Seq::empty());
            assert(leaves(pairs.take(i as int)).len() == n);
            assert(leaves(pairs.take(i + 1)) == leaves(pairs.take(i as int)) + entry_leaves(entry));
            lemma_leaves_of_prefix(pairs, i as int + 1);
        }
        match &value.entries[i].1 {
            Value::String(s) => {
                match f(s) {
                    Ok(reply) => {
                        proof {
                            asked = asked.push(*s);
                            answers = answers.push(reply);
                            assert(crate::text::texts(asked) =~= crate::text::texts(old_asked)
                                + seq![s@]);
                            assert(replies_of(answers).take(n) =~= replies_of(old_answers));
                            assert(replies_of(answers).skip(n) =~= seq![replies_of(answers)[n]]);
                        }
                        let text = match reply {
                            Some(t) => t,
                            None => s.clone(),
                        };
                        out.push((value.entries[i].0.duplicate(), Value::String(text)));
                    },
                    Err(e) => {
                        proof {
                            let tried = old_asked.push(*s);
                            assert(tried.drop_last() == old_asked);
                            assert(tried.last() == *s);
                            assert(failed(*f, tried, old_answers, e));
                            assert(crate::text::texts(tried) =~= leaves(pairs.take(i + 1)));
                            assert(crate::text::texts(tried) =~= leaves(pairs).take(
                                tried.len() as int,
                            ));
                            assert(first_leaves(tried, pairs));
                        }
                        return Err(e);
                    },
                }
            },
            Value::Mapping(inner) => {
                match rebuild(inner, f) {
                    Ok((rebuilt, more_asked, more_answers)) => {
                        proof {
                            asked = asked + more_asked@;
                            answers = answers + more_answers@;
                            assert(crate::text::texts(asked) =~= crate::text::texts(old_asked)
                                + crate::text::texts(more_asked@));
                            assert(replies_of(answers).take(n) =~= replies_of(old_answers));
                            assert(replies_of(answers).skip(n) =~= replies_of(more_answers@));
                        }
                        out.push((value.entries[i].0.duplicate(), Value::Mapping(rebuilt)));
                    },
                    Err(e) => {
                        proof {
                            let (inner_asked, inner_answers) = choose|
                                a: Seq<String>,
                                b: Seq<Option<String>>,
                            | #[trigger] failed(*f, a, b, e) && first_leaves(a, inner.pairs());
                            let tried = old_asked + inner_asked;
                            let given = old_answers + inner_answers;
                            assert(tried.drop_last() =~= old_asked + inner_asked.drop_last());
                            assert(tried.last() == inner_asked.last());
                            assert(answered(*f, tried.drop_last(), given)) by {
                                assert forall|j: int| 0 <= j < given.len() implies call_ensures(
                                    *f,
                                    (&#[trigger] tried.drop_last()[j],),
                                    Ok::<Option<String>, CulperError>(given[j]),
                                ) by {
                                    if j < n {
                                        assert(tried.drop_last()[j] == old_asked[j]);
                                        assert(given[j] == old_answers[j]);
                                    } else {
                                        assert(tried.drop_last()[j] == inner_asked.drop_last()[j - n]);
                                        assert(given[j] == inner_answers[j - n]);
                                    }
                                }
                            }
                            assert(failed(*f, tried, given, e));
                            assert(entry_leaves(entry) == leaves(inner.pairs()));
                            assert(crate::text::texts(tried) =~= crate::text::texts(old_asked)
                                + crate::text::texts(inner_asked));
                            assert(crate::text::texts(tried) =~= leaves(pairs.take(i + 1)).take(
                                tried.len() as int,
                            ));
                            assert(crate::text::texts(tried) =~= leaves(pairs).take(
                                tried.len() as int,
                            ));
                            assert(first_leaves(tried, pairs));
                        }
                        return Err(e);
                    },
                }
            },
            _ => {
                let key = value.entries[i].0.duplicate();
                let other = value.entries[i].1.duplicate();
                proof {
                    assert(entry_leaves(entry) =~= Seq::empty());
                    assert(leaves(pairs.take(i as int)) + entry_leaves(entry) =~= leaves(
                        pairs.take(i as int),
                    ));
                    assert(replaced_entry(entry, replies_of(answers).skip(n)) == entry);
                }
                out.push((key, other));
            },
        }
        proof {
            let now = replies_of(answers);
            assert((Mapping { entries: out }).pairs() =~= before.push(
                replaced_entry(entry, now.skip(n)),
            ));
        }
        i += 1;
    }
    proof {
        assert(pairs.take(pairs.len() as int) == pairs);
    }
    Ok((Mapping { entries: out }, Ghost(asked), Ghost(answers)))
}

/// The leaves of a prefix of the entries open the leaves of all entries.
proof fn lemma_leaves_of_prefix(entries: Seq<(Tree, Tree)>, n: int)
    requires
        0 <= n <= entries.len(),
    ensures
        leaves(entries.take(n)).len() <= leaves(entries).len(),
        forall|i: int|
            0 <= i < leaves(entries.take(n)).len() ==> leaves(entries.take(n))[i] == leaves(
                entries,
            )[i],
    decreases entries.len() - n,
{
    if n == entries.len() {
        assert(entries.take(n) == entries);
    } else {
        assert(entries.take(n + 1).drop_last() == entries.take(n));
        lemma_leaves_of_prefix(entries, n + 1);
    }
}

/// Whether the transform gives an answer for every leaf, whatever the
/// leaf.
pub open spec fn never_fails<F: Fn(&String) -> Result<Option<String>, CulperError>>(f: F) -> bool {
    forall|s: String, r: Result<Option<String>, CulperError>|
        #[trigger] call_ensures(f, (&s,), r) ==> r is Ok
}

/// Whether the transform answers with nothing for every leaf, whatever
/// the leaf.
pub open spec fn never_answers<F: Fn(&String) -> Result<Option<String>, CulperError>>(f: F) -> bool {
    forall|s: String, r: Result<Option<String>, CulperError>|
        #[trigger] call_ensures(f, (&s,), r) ==> r == Ok::<Option<String>, CulperError>(None)
}

/// Rebuilds a mapping, asking `f` about every text leaf.
///
/// The leaves are the values that are texts, of the mapping and of the
/// mappings nested in it as values, taken in document order. Where
/// `f` answers with a text, the leaf is replaced by it; where it answers
/// with nothing, the leaf stays. Everything else is copied as it is, so
/// the result has the entries of the mapping under their keys and in
/// their order. The first failure of `f` ends the traversal and is handed
/// on: `f` gave an answer for every leaf before the one it failed on.
pub fn traverse_yml<F>(value: &Mapping, f: &F) -> (res: Result<Mapping, CulperError>) where
    F: Fn(&String) -> Result<Option<String>, CulperError>,

    requires
        forall|s: String| call_requires(*f, (&s,)),
    ensures
        match res {
            Ok(out) => exists|asked: Seq<String>, answers: Seq<Option<String>>|
                {
                    &&& #[trigger] answered(*f, asked, answers)
                    &&& crate::text::texts(asked) == leaves(value.pairs())
                    &&& out.pairs() == replaced(value.pairs(), replies_of(answers))
                },
            Err(e) => exists|asked: Seq<String>, answers: Seq<Option<String>>|
                #[trigger] failed(*f, asked, answers, e) && first_leaves(asked, value.pairs()),
        },
        never_fails(*f) ==> res is Ok,
        never_answers(*f) ==> (res matches Ok(out) && out.pairs() == value.pairs()),
{
    match rebuild(value, f) {
        Ok((out, asked, answers)) => {
            proof {
                assert(answered(*f, asked@, answers@));
                if never_answers(*f) {
                    let replies = replies_of(answers@);
                    assert forall|i: int| 0 <= i < replies.len() implies (#[trigger] replies[i])
                        is None by {
                        assert(call_ensures(
                            *f,
                            (&asked@[i],),
                            Ok::<Option<String>, CulperError>(answers@[i]),
                        ));
                    }
                    lemma_no_reply_changes_nothing(value.pairs(), replies);
                }
            }
            Ok(out)
        },
        Err(e) => Err(e),
    }
}

/// Whether `answers` are what opening the leaves `asked` with `open`
/// gave, or could have given, one for one.
pub open spec fn leaves_opened<F: Fn(SealedVault) -> Result<UnsealedVault, CulperError>>(
    open: F,
    asked: Seq<String>,
    answers: Seq<Option<String>>,
) -> bool {
    &&& asked.len() == answers.len()
    &&& forall|i: int|
        0 <= i < asked.len() ==> leaf_opened(
            open,
            (#[trigger] asked[i])@,
            Ok::<Option<String>, CulperError>(answers[i]),
        )
}

/// Whether opening the leaves `asked` with `open`, one after the other,
/// ended in the failure `e` at the last of them, after it had given
/// `answers` for all that come before.
pub open spec fn leaves_failed<F: Fn(SealedVault) -> Result<UnsealedVault, CulperError>>(
    open: F,
    asked: Seq<String>,
    answers: Seq<Option<String>>,
    e: CulperError,
) -> bool {
    &&& asked.len() == answers.len() + 1
    &&& leaves_opened(open, asked.drop_last(), answers)
    &&& leaf_opened(open, asked.last()@, Err::<Option<String>, CulperError>(e))
}

/// Whether no text leaf of the entries is an envelope.
pub open spec fn holds_no_envelope(entries: Seq<(Tree, Tree)>) -> bool {
    forall|i: int| 0 <= i < leaves(entries).len() ==> parsed(#[trigger] leaves(entries)[i]) is Err
}

/// Opens every sealed value of a document.
///
/// A text leaf that is an envelope is replaced by the secret that `open`
/// recovers from it. A leaf that is no envelope is plain data and stays,
/// and so does everything else. The first failure of `open`, in document
/// order, ends the call and is handed on.
pub fn unseal_document<F>(document: &Mapping, open: &F) -> (res: Result<Mapping, CulperError>) where
    F: Fn(SealedVault) -> Result<UnsealedVault, CulperError>,

    requires
        forall|vault: SealedVault| call_requires(*open, (vault,)),
    ensures
        match res {
            Ok(out) => exists|asked: Seq<String>, answers: Seq<Option<String>>|
                {
                    &&& #[trigger] leaves_opened(*open, asked, answers)
                    &&& crate::text::texts(asked) == leaves(document.pairs())
                    &&& out.pairs() == replaced(document.pairs(), replies_of(answers))
                },
            Err(e) => exists|asked: Seq<String>, answers: Seq<Option<String>>|
                #[trigger] leaves_failed(*open, asked, answers, e) && first_leaves(
                    asked,
                    document.pairs(),
                ),
        },
        holds_no_envelope(document.pairs()) ==> (res matches Ok(out) && out.pairs()
            == document.pairs()),
{
    let transform = |leaf: &String| -> (reply: Result<Option<String>, CulperError>)
        ensures
            leaf_opened(*open, leaf@, reply),
        { unseal_leaf(leaf, open) };
    let res = traverse_yml(document, &transform);
    proof {
        if res is Ok {
            let out = res->Ok_0;
            let (asked, answers) = choose|asked: Seq<String>, answers: Seq<Option<String>>|
                {
                    &&& #[trigger] answered(transform, asked, answers)
                    &&& crate::text::texts(asked) == leaves(document.pairs())
                    &&& out.pairs() == replaced(document.pairs(), replies_of(answers))
                };
            assert(leaves_opened(*open, asked, answers));
            if holds_no_envelope(document.pairs()) {
                let replies = replies_of(answers);
                assert forall|i: int| 0 <= i < replies.len() implies (#[trigger] replies[i])
                    is None by {
                    assert(crate::text::texts(asked)[i] == asked[i]@);
                    assert(parsed(leaves(document.pairs())[i]) is Err);
                    assert(leaf_opened(
                        *open,
                        asked[i]@,
                        Ok::<Option<String>, CulperError>(answers[i]),
                    ));
                }
                lemma_no_reply_changes_nothing(document.pairs(), replies);
            }
        } else {
            let e = res->Err_0;
            let (asked, answers) = choose|asked: Seq<String>, answers: Seq<Option<String>>|
                #[trigger] failed(transform, asked, answers, e) && first_leaves(
                    asked,
                    document.pairs(),
                );
            assert(leaves_opened(*open, asked.drop_last(), answers));
            assert(leaves_failed(*open, asked, answers, e));
            if holds_no_envelope(document.pairs()) {
                let at = asked.len() - 1;
                assert(crate::text::texts(asked)[at] == asked.last()@);
                assert(parsed(leaves(document.pairs())[at]) is Err);
            }
        }
    }
    res
}

} // verus!
