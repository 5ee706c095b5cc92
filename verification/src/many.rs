//! Runs of records: a count of records read one after another, and the bytes
//! of a run of records written one after another.

use vstd::prelude::*;

verus! {

/// `n` records read one after another from the front of `s` with `f`, and
/// what follows them; nothing where one of them cannot be read.
pub open spec fn take_many<T>(
    s: Seq<u8>,
    n: nat,
    f: spec_fn(Seq<u8>) -> Option<(T, Seq<u8>)>,
) -> Option<(Seq<T>, Seq<u8>)>
    decreases n,
{
    if n == 0 {
        Some((Seq::empty(), s))
    } else {
        match take_many(s, (n - 1) as nat, f) {
            Some((vs, r)) => match f(r) {
                Some((v, r2)) => Some((vs.push(v), r2)),
                None => None,
            },
            None => None,
        }
    }
}

/// The bytes of the records `vs`, each written with `g`, one after another.
pub open spec fn many_bytes<T>(vs: Seq<T>, g: spec_fn(T) -> Seq<u8>) -> Seq<u8>
    decreases vs.len(),
{
    if vs.len() == 0 {
        Seq::empty()
    } else {
        many_bytes(vs.drop_last(), g) + g(vs.last())
    }
}

/// Once a record of a run cannot be read, no longer run can be read.
pub proof fn lemma_take_many_fails<T>(
    s: Seq<u8>,
    k: nat,
    m: nat,
    f: spec_fn(Seq<u8>) -> Option<(T, Seq<u8>)>,
)
    requires
        take_many(s, k, f) is None,
        k <= m,
    ensures
        take_many(s, m, f) is None,
    decreases m,
{
    if m > k {
        lemma_take_many_fails(s, k, (m - 1) as nat, f);
    }
}

/// Writing one more record appends its bytes.
pub proof fn lemma_many_bytes_push<T>(vs: Seq<T>, v: T, g: spec_fn(T) -> Seq<u8>)
    ensures
        many_bytes(vs.push(v), g) == many_bytes(vs, g) + g(v),
{
    assert(vs.push(v).drop_last() =~= vs);
}

/// Where each record reads back as written, a run reads back as written.
pub proof fn lemma_take_many_bytes<T>(
    vs: Seq<T>,
    rest: Seq<u8>,
    f: spec_fn(Seq<u8>) -> Option<(T, Seq<u8>)>,
    g: spec_fn(T) -> Seq<u8>,
)
    requires
        forall|v: T, r: Seq<u8>| #[trigger] f(g(v) + r) == Some((v, r)),
    ensures
        take_many(many_bytes(vs, g) + rest, vs.len(), f) == Some((vs, rest)),
    decreases vs.len(),
{
    if vs.len() > 0 {
        let init = vs.drop_last();
        let last = vs.last();
        lemma_take_many_bytes(init, g(last) + rest, f, g);
        assert(many_bytes(init, g) + (g(last) + rest) =~= many_bytes(vs, g) + rest);
        assert(f(g(last) + rest) == Some((last, rest)));
        assert(init.push(last) =~= vs);
    } else {
        assert(many_bytes(vs, g) + rest =~= rest);
        assert(vs =~= Seq::<T>::empty());
    }
}

/// Concatenation of byte strings is associative.
pub proof fn lemma_assoc(a: Seq<u8>, b: Seq<u8>, c: Seq<u8>)
    ensures
        (a + b) + c == a + (b + c),
{
    assert((a + b) + c =~= a + (b + c));
}

/// The bytes of two runs one after the other are those of the joined run.
pub proof fn lemma_many_bytes_concat<T>(a: Seq<T>, b: Seq<T>, g: spec_fn(T) -> Seq<u8>)
    ensures
        many_bytes(a + b, g) == many_bytes(a, g) + many_bytes(b, g),
    decreases b.len(),
{
    if b.len() == 0 {
        assert(a + b =~= a);
        assert(many_bytes(a, g) + many_bytes(b, g) =~= many_bytes(a, g));
    } else {
        let b0 = b.drop_last();
        lemma_many_bytes_concat(a, b0, g);
        assert((a + b).drop_last() =~= a + b0);
        assert((a + b).last() == b.last());
        lemma_assoc(many_bytes(a, g), many_bytes(b0, g), g(b.last()));
    }
}

/// Where each record of a run reads back as `h` of what was written, the run
/// reads back as `h` of each record written.
pub proof fn lemma_take_many_bytes_mapped<T>(
    vs: Seq<T>,
    rest: Seq<u8>,
    f: spec_fn(Seq<u8>) -> Option<(T, Seq<u8>)>,
    g: spec_fn(T) -> Seq<u8>,
    h: spec_fn(T) -> T,
)
    requires
        forall|i: int, r: Seq<u8>| 0 <= i < vs.len() ==> #[trigger] f(g(vs[i]) + r) == Some((h(vs[i]), r)),
    ensures
        take_many(many_bytes(vs, g) + rest, vs.len(), f) == Some((vs.map_values(h), rest)),
    decreases vs.len(),
{
    if vs.len() > 0 {
        let init = vs.drop_last();
        let last = vs.last();
        assert forall|i: int, r: Seq<u8>| 0 <= i < init.len() implies #[trigger] f(g(init[i]) + r)
            == Some((h(init[i]), r)) by {
            assert(init[i] == vs[i]);
        }
        lemma_take_many_bytes_mapped(init, g(last) + rest, f, g, h);
        assert(many_bytes(init, g) + (g(last) + rest) =~= many_bytes(vs, g) + rest);
        assert(f(g(vs[vs.len() - 1]) + rest) == Some((h(vs[vs.len() - 1]), rest)));
        assert(init.map_values(h).push(h(last)) =~= vs.map_values(h));
    } else {
        assert(many_bytes(vs, g) + rest =~= rest);
        assert(vs.map_values(h) =~= Seq::<T>::empty());
    }
}

/// Where `h` leaves the bytes of each record unchanged, it leaves the bytes of
/// a run unchanged.
pub proof fn lemma_many_bytes_map_values<T>(vs: Seq<T>, g: spec_fn(T) -> Seq<u8>, h: spec_fn(T) -> T)
    requires
        forall|v: T| #[trigger] g(h(v)) == g(v),
    ensures
        many_bytes(vs.map_values(h), g) == many_bytes(vs, g),
    decreases vs.len(),
{
    if vs.len() > 0 {
        lemma_many_bytes_map_values(vs.drop_last(), g, h);
        assert(vs.map_values(h).drop_last() =~= vs.drop_last().map_values(h));
        assert(g(h(vs.last())) == g(vs.last()));
    }
}

/// A run of `n` records read with a reader each of whose records has the
/// property `p` holds `n` records, each with the property `p`.
pub proof fn lemma_take_many_all<T>(
    s: Seq<u8>,
    n: nat,
    f: spec_fn(Seq<u8>) -> Option<(T, Seq<u8>)>,
    p: spec_fn(T) -> bool,
)
    requires
        forall|t: Seq<u8>| #[trigger] f(t) is Some ==> p(f(t).unwrap().0),
    ensures
        take_many(s, n, f) is Some ==> ({
            let vs = take_many(s, n, f).unwrap().0;
            &&& vs.len() == n
            &&& forall|i: int| 0 <= i < n ==> #[trigger] p(vs[i])
        }),
    decreases n,
{
    if n > 0 {
        lemma_take_many_all(s, (n - 1) as nat, f, p);
        if take_many(s, n, f) is Some {
            let (init, r) = take_many(s, (n - 1) as nat, f).unwrap();
            assert(f(r) is Some);
            let vs = take_many(s, n, f).unwrap().0;
            assert(vs == init.push(f(r).unwrap().0));
            assert forall|i: int| 0 <= i < n implies #[trigger] p(vs[i]) by {
                if i < n - 1 {
                    assert(vs[i] == init[i]);
                }
            }
        }
    }
}

/// Where each record takes `n` bytes, record `k` of a run takes the bytes
/// from `k * n` to `k * n + n`, in the order of the run.
pub proof fn lemma_many_bytes_fixed<T>(vs: Seq<T>, g: spec_fn(T) -> Seq<u8>, n: nat)
    requires
        forall|v: T| #[trigger] g(v).len() == n,
    ensures
        many_bytes(vs, g).len() == vs.len() * n,
        forall|k: int|
            0 <= k < vs.len() ==> many_bytes(vs, g).subrange(k * n, k * n + n) == g(
                #[trigger] vs[k],
            ),
    decreases vs.len(),
{
    if vs.len() > 0 {
        let init = vs.drop_last();
        lemma_many_bytes_fixed(init, g, n);
        let a = many_bytes(init, g);
        let b = g(vs.last());
        assert(many_bytes(vs, g) == a + b);
        assert(a.len() + n == vs.len() * n) by (nonlinear_arith)
            requires
                a.len() == init.len() * n,
                init.len() + 1 == vs.len(),
        ;
        assert forall|k: int| 0 <= k < vs.len() implies many_bytes(vs, g).subrange(
            k * n,
            k * n + n,
        ) == g(#[trigger] vs[k]) by {
            if k < vs.len() - 1 {
                assert(k * n + n <= init.len() * n) by (nonlinear_arith)
                    requires
                        k < init.len(),
                ;
                assert(k * n >= 0) by (nonlinear_arith)
                    requires
                        k >= 0,
                ;
                assert(init[k] == vs[k]);
                assert((a + b).subrange(k * n, k * n + n) =~= a.subrange(k * n, k * n + n));
            } else {
                assert(k * n == init.len() * n) by (nonlinear_arith)
                    requires
                        k == init.len(),
                ;
                assert((a + b).subrange(k * n, k * n + n) =~= b);
            }
        }
    } else {
        assert(vs.len() * n == 0) by (nonlinear_arith)
            requires
                vs.len() == 0,
        ;
    }
}

} // verus!
