//! Histories that only ever grow.

use vstd::prelude::*;

verus! {

/// Whether `after` is `before` with more behind it.
pub open spec fn extends<E>(before: Seq<E>, after: Seq<E>) -> bool {
    before.len() <= after.len() && after.take(before.len() as int) == before
}

/// What `after` has behind `before`.
pub open spec fn since<E>(before: Seq<E>, after: Seq<E>) -> Seq<E> {
    after.skip(before.len() as int)
}

/// A history extends itself by nothing.
pub proof fn lemma_same<E>(a: Seq<E>)
    ensures
        extends(a, a),
        since(a, a) == Seq::<E>::empty(),
{
    assert(a.take(a.len() as int) =~= a);
    assert(since(a, a) =~= Seq::<E>::empty());
}

/// One more event extends a history by that event.
pub proof fn lemma_one<E>(a: Seq<E>, e: E)
    ensures
        extends(a, a.push(e)),
        since(a, a.push(e)) == seq![e],
{
    assert(a.push(e).take(a.len() as int) =~= a);
    assert(since(a, a.push(e)) =~= seq![e]);
}

/// Two extensions in a row are one, whose events are those of the first and then
/// those of the second.
pub proof fn lemma_chain<E>(a: Seq<E>, b: Seq<E>, c: Seq<E>)
    requires
        extends(a, b),
        extends(b, c),
    ensures
        extends(a, c),
        since(a, c) == since(a, b) + since(b, c),
        since(a, c).len() == since(a, b).len() + since(b, c).len(),
        since(a, c).take(since(a, b).len() as int) == since(a, b),
        since(a, c).skip(since(a, b).len() as int) == since(b, c),
{
    assert(c.take(b.len() as int) == b);
    assert(c.take(a.len() as int) =~= b.take(a.len() as int));
    assert(since(a, c) =~= since(a, b) + since(b, c)) by {
        assert forall|i: int| 0 <= i < since(a, b).len() implies since(a, c)[i] == since(a, b)[i] by {
            assert(c.take(b.len() as int)[a.len() + i] == c[a.len() + i]);
        }
    }
    assert(since(a, c).take(since(a, b).len() as int) =~= since(a, b));
    assert(since(a, c).skip(since(a, b).len() as int) =~= since(b, c));
}

} // verus!
