use std::collections::HashSet;
use std::sync::Arc;
use vstd::prelude::*;

verus! {

/// The text an `Arc<str>` points to.
pub open spec fn arc_text(a: &Arc<str>) -> Seq<char> {
    (**a)@
}

/// The texts held by a set of shared strings.
pub open spec fn texts(s: Set<Arc<str>>) -> Set<Seq<char>> {
    s.map(|a: Arc<str>| arc_text(&a))
}

/// Calls `HashSet::get` with a `&str` key: the stored `Arc<str>` whose text
/// equals `s`, if there is one. `Arc<str>` compares and hashes by the text
/// it points to, so the set holds at most one string of each text.
#[verifier::external_body]
fn find_interned<'a>(set: &'a HashSet<Arc<str>>, s: &str) -> (r: Option<&'a Arc<str>>)
    ensures
        r is Some <==> texts(set@).contains(s@),
        r matches Some(a) ==> arc_text(a) == s@,
{
    set.get(s)
}

/// Calls `HashSet::insert`: afterwards the set holds the text of `a`, and
/// the texts it held before.
#[verifier::external_body]
fn add_interned(set: &mut HashSet<Arc<str>>, a: Arc<str>)
    ensures
        texts(final(set)@) == texts(old(set)@).insert(arc_text(&a)),
{
    set.insert(a);
}

/// `n` is the size of the finite set `s`.
pub open spec fn counts(n: usize, s: Set<Seq<char>>) -> bool {
    s.finite() && n == s.len()
}

/// Calls `HashSet::len`: the number of strings held, which is the number of
/// distinct texts held.
#[verifier::external_body]
fn count_interned(set: &HashSet<Arc<str>>) -> (n: usize)
    ensures
        counts(n, texts(set@)),
{
    set.len()
}

/// Calls `HashSet::clone`: a new set holding the same strings.
#[verifier::external_body]
fn copy_interned(set: &HashSet<Arc<str>>) -> (r: HashSet<Arc<str>>)
    ensures
        texts(r@) == texts(set@),
{
    set.clone()
}

/// Calls `Arc::clone`: another handle on the same string.
#[verifier::external_body]
fn share(a: &Arc<str>) -> (r: Arc<str>)
    ensures
        arc_text(&r) == arc_text(a),
{
    Arc::clone(a)
}

/// Calls `Arc::<str>::from`: a new shared string holding the text of `s`.
#[verifier::external_body]
fn arc_of(s: &str) -> (r: Arc<str>)
    ensures
        arc_text(&r) == s@,
{
    Arc::from(s)
}

/// A string interning system: each distinct text is stored once, as a
/// shared `Arc<str>`, and interning a text again hands out the stored one.
#[derive(Debug)]
pub struct StringInterner {
    strings: HashSet<Arc<str>>,
}

impl View for StringInterner {
    type V = Set<Seq<char>>;

    /// The set of texts interned so far.
    closed spec fn view(&self) -> Set<Seq<char>> {
        texts(self.strings@)
    }
}

proof fn lemma_texts_empty()
    ensures
        texts(Set::<Arc<str>>::empty()) == Set::<Seq<char>>::empty(),
{
    assert(texts(Set::<Arc<str>>::empty()) =~= Set::<Seq<char>>::empty());
}

impl StringInterner {
    /// An interner holding no string.
    pub fn new() -> (r: Self)
        ensures
            r@ == Set::<Seq<char>>::empty(),
    {
        proof {
            lemma_texts_empty();
        }
        StringInterner { strings: HashSet::new() }
    }

    /// Interns `s`: returns a shared string holding its text, the one stored
    /// before if the text was interned already. Afterwards the interner holds
    /// the text of `s` besides those it held.
    pub fn intern(&mut self, s: &str) -> (r: Arc<str>)
        ensures
            arc_text(&r) == s@,
            final(self)@ == old(self)@.insert(s@),
            final(self)@ == after_op(old(self)@, InternOp::Intern(s@)),
    {
        match find_interned(&self.strings, s) {
            Some(interned) => {
                let r = share(interned);
                proof {
                    assert(old(self)@.insert(s@) =~= old(self)@);
                }
                r
            },
            None => {
                let interned = arc_of(s);
                add_interned(&mut self.strings, share(&interned));
                interned
            },
        }
    }

    /// Interns an owned string, as `intern` does.
    pub fn intern_string(&mut self, s: String) -> (r: Arc<str>)
        ensures
            arc_text(&r) == s@,
            final(self)@ == old(self)@.insert(s@),
            final(self)@ == after_op(old(self)@, InternOp::Intern(s@)),
    {
        self.intern(s.as_str())
    }

    /// The number of distinct texts interned.
    pub fn len(&self) -> (n: usize)
        ensures
            self@.finite(),
            n == self@.len(),
    {
        count_interned(&self.strings)
    }

    /// Whether no text is interned.
    pub fn is_empty(&self) -> (r: bool)
        ensures
            r == (self@ == Set::<Seq<char>>::empty()),
    {
        let r = self.strings.is_empty();
        proof {
            if r {
                assert(self.strings@ == Set::<Arc<str>>::empty());
                lemma_texts_empty();
            } else {
                let a = self.strings@.choose();
                assert(self.strings@.contains(a));
                assert(self@.contains(arc_text(&a)));
            }
        }
        r
    }

    /// Forgets every interned text.
    pub fn clear(&mut self)
        ensures
            final(self)@ == Set::<Seq<char>>::empty(),
            final(self)@ == after_op(old(self)@, InternOp::Clear),
    {
        self.strings.clear();
        proof {
            lemma_texts_empty();
        }
    }
}

impl Clone for StringInterner {
    /// An independent interner holding the same texts.
    fn clone(&self) -> (r: Self)
        ensures
            r@ == self@,
    {
        StringInterner { strings: copy_interned(&self.strings) }
    }
}

impl Default for StringInterner {
    /// An interner holding no string.
    fn default() -> (r: Self)
        ensures
            r@ == Set::<Seq<char>>::empty(),
    {
        StringInterner::new()
    }
}

/// Interning a text that is already interned leaves the interned texts as
/// they were; interning a new text adds exactly one.
pub proof fn law_intern_counts(before: Set<Seq<char>>, s: Seq<char>)
    requires
        before.finite(),
    ensures
        before.contains(s) ==> before.insert(s) == before,
        !before.contains(s) ==> before.insert(s).len() == before.len() + 1,
{
    if before.contains(s) {
        assert(before.insert(s) =~= before);
    }
}

/// Interning the same text twice holds the same texts as interning it once.
pub proof fn law_intern_idempotent(before: Set<Seq<char>>, s: Seq<char>)
    ensures
        before.insert(s).insert(s) == before.insert(s),
{
    assert(before.insert(s).insert(s) =~= before.insert(s));
}

/// One call that changes an interner: interning a text, or clearing.
pub ghost enum InternOp {
    Intern(Seq<char>),
    Clear,
}

/// The texts an interner holds after one call, as `intern`,
/// `intern_string` and `clear` state it.
pub open spec fn after_op(held: Set<Seq<char>>, op: InternOp) -> Set<Seq<char>> {
    match op {
        InternOp::Intern(s) => held.insert(s),
        InternOp::Clear => Set::empty(),
    }
}

/// The texts an interner holds after the calls `ops`, in order, starting
/// from the texts `held`.
pub open spec fn after_ops(held: Set<Seq<char>>, ops: Seq<InternOp>) -> Set<Seq<char>>
    decreases ops.len(),
{
    if ops.len() == 0 {
        held
    } else {
        after_op(after_ops(held, ops.drop_last()), ops.last())
    }
}

/// Whether the calls `ops` clear the interner.
pub open spec fn has_clear(ops: Seq<InternOp>) -> bool {
    exists|i: int| 0 <= i < ops.len() && ops[i] == InternOp::Clear
}

/// The texts interned by the calls `ops` after the last `clear` among
/// them, or by all of them where none clears.
pub open spec fn interned_since_clear(ops: Seq<InternOp>) -> Set<Seq<char>>
    decreases ops.len(),
{
    if ops.len() == 0 {
        Set::empty()
    } else {
        match ops.last() {
            InternOp::Intern(s) => interned_since_clear(ops.drop_last()).insert(s),
            InternOp::Clear => Set::empty(),
        }
    }
}

/// Running calls one after the other is running them all.
pub proof fn law_ops_compose(held: Set<Seq<char>>, a: Seq<InternOp>, b: Seq<InternOp>)
    ensures
        after_ops(held, a + b) == after_ops(after_ops(held, a), b),
    decreases b.len(),
{
    if b.len() == 0 {
        assert(a + b =~= a);
    } else {
        law_ops_compose(held, a, b.drop_last());
        assert((a + b).drop_last() =~= a + b.drop_last());
        assert((a + b).last() == b.last());
    }
}

/// After any calls, an interner holds the texts it held before together
/// with those interned since, where nothing cleared it; and exactly the
/// texts interned since the last `clear` where something did. The set is
/// finite whenever the starting one is, so `len` is its size.
pub proof fn law_history(held: Set<Seq<char>>, ops: Seq<InternOp>)
    requires
        held.finite(),
    ensures
        after_ops(held, ops).finite(),
        has_clear(ops) ==> after_ops(held, ops) == interned_since_clear(ops),
        !has_clear(ops) ==> after_ops(held, ops) == held.union(interned_since_clear(ops)),
    decreases ops.len(),
{
    if ops.len() > 0 {
        let init = ops.drop_last();
        law_history(held, init);
        if has_clear(init) {
            let i = choose|i: int| 0 <= i < init.len() && init[i] == InternOp::Clear;
            assert(ops[i] == InternOp::Clear);
        }
        if has_clear(ops) && ops.last() != InternOp::Clear {
            let i = choose|i: int| 0 <= i < ops.len() && ops[i] == InternOp::Clear;
            assert(init[i] == InternOp::Clear);
        }
        if !has_clear(ops) {
            assert(ops[ops.len() - 1] != InternOp::Clear);
            assert forall|i: int| 0 <= i < init.len() implies init[i] != InternOp::Clear by {
                assert(ops[i] == init[i]);
            }
        }
        match ops.last() {
            InternOp::Intern(s) => {
                if !has_clear(ops) {
                    assert(after_ops(held, ops) =~= held.union(interned_since_clear(ops)));
                }
            },
            InternOp::Clear => {},
        }
    }
}

/// For an interner made by `new` or `default`: after any calls, `len` is
/// the number of distinct texts interned since it was made or last cleared.
/// A clone starts from the texts of its original; calls on either after
/// that go on from those texts, each copy by its own calls.
pub proof fn law_len_counts_interned(ops: Seq<InternOp>)
    ensures
        after_ops(Set::empty(), ops) == interned_since_clear(ops),
        after_ops(Set::empty(), ops).finite(),
{
    law_history(Set::empty(), ops);
    if !has_clear(ops) {
        assert(Set::<Seq<char>>::empty().union(interned_since_clear(ops)) =~= interned_since_clear(ops));
    }
}

} // verus!
