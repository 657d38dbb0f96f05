//! One whole generation run: validate the schema, put the services into an
//! explicit deterministic order, render every artifact, and hand the results
//! back as path/content pairs.
//!
//! Service documents are discovered by the caller in an arbitrary order; the
//! run orders them lexicographically by service id, so the emitted source is
//! a pure function of the schema alone.

use vstd::prelude::*;
use vstd::multiset::Multiset;
use vstd::string::StringExecFns;
use vstd::string::StrSliceExecFns;
use crate::Error;
use crate::codegen::CodeGenerator;
use crate::codegen::file_views;
use crate::service::Config;
use crate::service::Service;
use crate::service::service_ids;
use crate::text::cat_map;
use crate::validate::distinct_seqs;
use crate::validate::spec_violation;
use crate::validate::valid_schema;
use crate::validate::validate;

verus! {

/// Lexicographic order on character sequences, by code point; the empty
/// sequence comes first, a prefix before its extensions.
pub open spec fn lex_le(a: Seq<char>, b: Seq<char>) -> bool
    decreases a.len(),
{
    if a.len() == 0 {
        true
    } else if b.len() == 0 {
        false
    } else if (a[0] as u32) < (b[0] as u32) {
        true
    } else if (a[0] as u32) > (b[0] as u32) {
        false
    } else {
        lex_le(a.drop_first(), b.drop_first())
    }
}

/// Compares two ids in the lexicographic order of their characters.
fn id_le(a: &str, b: &str) -> (r: bool)
    ensures
        r == lex_le(a@, b@),
{
    let alen = a.unicode_len();
    let blen = b.unicode_len();
    let mut i: usize = 0;
    assert(a@.skip(0) =~= a@);
    assert(b@.skip(0) =~= b@);
    while i < alen && i < blen
        invariant
            i <= alen,
            i <= blen,
            alen == a@.len(),
            blen == b@.len(),
            lex_le(a@, b@) == lex_le(a@.skip(i as int), b@.skip(i as int)),
        decreases alen - i,
    {
        let ca = a.get_char(i);
        let cb = b.get_char(i);
        if (ca as u32) < (cb as u32) {
            proof {
                assert(a@.skip(i as int)[0] == a@[i as int]);
                assert(b@.skip(i as int)[0] == b@[i as int]);
            }
            return true;
        }
        if (ca as u32) > (cb as u32) {
            proof {
                assert(a@.skip(i as int)[0] == a@[i as int]);
                assert(b@.skip(i as int)[0] == b@[i as int]);
            }
            return false;
        }
        proof {
            assert(a@.skip(i as int)[0] == a@[i as int]);
            assert(b@.skip(i as int)[0] == b@[i as int]);
            assert(a@.skip(i as int).drop_first() =~= a@.skip(i as int + 1));
            assert(b@.skip(i as int).drop_first() =~= b@.skip(i as int + 1));
        }
        i = i + 1;
    }
    if i == alen {
        proof {
            assert(a@.skip(i as int).len() == 0);
        }
        true
    } else {
        proof {
            assert(b@.skip(i as int).len() == 0);
            assert(a@.skip(i as int).len() > 0);
        }
        false
    }
}

/// Every pair of entries, in order, has ids in lexicographic order.
pub open spec fn sorted_by_id(s: Seq<Service>) -> bool {
    forall|i: int, j: int| 0 <= i < j < s.len() ==> lex_le((#[trigger] s[i]).id@, (#[trigger] s[j]).id@)
}

/// The order is total: of any two character sequences, one is below the
/// other.
pub proof fn lemma_lex_le_total(a: Seq<char>, b: Seq<char>)
    ensures
        lex_le(a, b) || lex_le(b, a),
    decreases a.len(),
{
    if a.len() == 0 {
    } else if b.len() == 0 {
    } else if (a[0] as u32) == (b[0] as u32) {
        lemma_lex_le_total(a.drop_first(), b.drop_first());
    }
}

/// The order is transitive.
pub proof fn lemma_lex_le_trans(a: Seq<char>, b: Seq<char>, c: Seq<char>)
    requires
        lex_le(a, b),
        lex_le(b, c),
    ensures
        lex_le(a, c),
    decreases a.len(),
{
    if a.len() == 0 {
    } else {
        assert(b.len() > 0);
        assert(c.len() > 0);
        if (a[0] as u32) == (b[0] as u32) && (b[0] as u32) == (c[0] as u32) {
            lemma_lex_le_trans(a.drop_first(), b.drop_first(), c.drop_first());
        }
    }
}

/// The order is antisymmetric: two sequences each below the other are equal.
pub proof fn lemma_lex_le_antisym(a: Seq<char>, b: Seq<char>)
    requires
        lex_le(a, b),
        lex_le(b, a),
    ensures
        a == b,
    decreases a.len(),
{
    if a.len() == 0 {
        assert(b.len() == 0);
        assert(a =~= b);
    } else {
        assert(b.len() > 0);
        assert((a[0] as u32) == (b[0] as u32));
        vstd::utf8::char_u32_cast(a[0], a[0] as u32);
        vstd::utf8::char_u32_cast(b[0], b[0] as u32);
        assert(a[0] == b[0]);
        lemma_lex_le_antisym(a.drop_first(), b.drop_first());
        assert forall|i: int| 0 <= i < a.len() implies a[i] == b[i] by {
            if i > 0 {
                assert(a.drop_first()[i - 1] == b.drop_first()[i - 1]);
            }
        }
        assert(a =~= b);
    }
}

/// `x` placed before the first entry of `s` whose id is not below `x`'s.
pub open spec fn spec_insert(x: Service, s: Seq<Service>) -> Seq<Service>
    decreases s.len(),
{
    if s.len() == 0 {
        seq![x]
    } else if lex_le(x.id@, s[0].id@) {
        seq![x] + s
    } else {
        seq![s[0]] + spec_insert(x, s.drop_first())
    }
}

/// The services ordered by id: each taken in turn and placed at its position.
pub open spec fn spec_sort(s: Seq<Service>) -> Seq<Service>
    decreases s.len(),
{
    if s.len() == 0 {
        Seq::empty()
    } else {
        spec_insert(s.last(), spec_sort(s.drop_last()))
    }
}

proof fn lemma_spec_insert_at(x: Service, s: Seq<Service>, j: int)
    requires
        0 <= j <= s.len(),
        forall|k: int| 0 <= k < j ==> !lex_le(x.id@, (#[trigger] s[k]).id@),
        j < s.len() ==> lex_le(x.id@, s[j].id@),
    ensures
        spec_insert(x, s) == s.take(j) + seq![x] + s.skip(j),
    decreases j,
{
    if j == 0 {
        if s.len() == 0 {
            assert(spec_insert(x, s) =~= s.take(0) + seq![x] + s.skip(0));
        } else {
            assert(lex_le(x.id@, s[0].id@));
            assert(spec_insert(x, s) =~= s.take(0) + seq![x] + s.skip(0));
        }
    } else {
        assert(!lex_le(x.id@, s[0].id@));
        let df = s.drop_first();
        assert(forall|k: int| 0 <= k < j - 1 ==> !lex_le(x.id@, (#[trigger] df[k]).id@)) by {
            assert(forall|k: int| 0 <= k < j - 1 ==> df[k] == s[k + 1]);
        }
        lemma_spec_insert_at(x, df, j - 1);
        assert(seq![s[0]] + (df.take(j - 1) + seq![x] + df.skip(j - 1)) =~= s.take(j) + seq![x]
            + s.skip(j));
    }
}

proof fn lemma_spec_insert_elements(x: Service, s: Seq<Service>)
    ensures
        spec_insert(x, s).len() == s.len() + 1,
        forall|k: int|
            0 <= k < spec_insert(x, s).len() ==> (#[trigger] spec_insert(x, s)[k] == x
                || s.contains(spec_insert(x, s)[k])),
    decreases s.len(),
{
    if s.len() == 0 {
    } else if lex_le(x.id@, s[0].id@) {
        assert forall|k: int| 0 <= k < spec_insert(x, s).len() implies (spec_insert(x, s)[k] == x
            || s.contains(spec_insert(x, s)[k])) by {
            if k > 0 {
                assert(spec_insert(x, s)[k] == s[k - 1]);
            }
        }
    } else {
        let df = s.drop_first();
        lemma_spec_insert_elements(x, df);
        assert forall|k: int| 0 <= k < spec_insert(x, s).len() implies (spec_insert(x, s)[k] == x
            || s.contains(spec_insert(x, s)[k])) by {
            if k == 0 {
                assert(spec_insert(x, s)[0] == s[0]);
                assert(s.contains(s[0]));
            } else {
                let e = spec_insert(x, s)[k];
                assert(e == spec_insert(x, df)[k - 1]);
                if e != x {
                    assert(df.contains(e));
                    let m = choose|m: int| 0 <= m < df.len() && df[m] == e;
                    assert(s[m + 1] == e);
                }
            }
        }
    }
}

proof fn lemma_spec_insert_sorted(x: Service, s: Seq<Service>)
    requires
        sorted_by_id(s),
    ensures
        sorted_by_id(spec_insert(x, s)),
    decreases s.len(),
{
    if s.len() == 0 {
    } else if lex_le(x.id@, s[0].id@) {
        let r = spec_insert(x, s);
        assert forall|i: int, j: int| 0 <= i < j < r.len() implies lex_le(
            (#[trigger] r[i]).id@,
            (#[trigger] r[j]).id@,
        ) by {
            if i == 0 {
                assert(r[j] == s[j - 1]);
                if j > 1 {
                    lemma_lex_le_trans(x.id@, s[0].id@, s[j - 1].id@);
                }
            } else {
                assert(r[i] == s[i - 1]);
                assert(r[j] == s[j - 1]);
            }
        }
    } else {
        let df = s.drop_first();
        assert(sorted_by_id(df)) by {
            assert forall|i: int, j: int| 0 <= i < j < df.len() implies lex_le(
                (#[trigger] df[i]).id@,
                (#[trigger] df[j]).id@,
            ) by {
                assert(df[i] == s[i + 1]);
                assert(df[j] == s[j + 1]);
            }
        }
        lemma_spec_insert_sorted(x, df);
        lemma_spec_insert_elements(x, df);
        lemma_lex_le_total(x.id@, s[0].id@);
        let r = spec_insert(x, s);
        let ins = spec_insert(x, df);
        assert forall|i: int, j: int| 0 <= i < j < r.len() implies lex_le(
            (#[trigger] r[i]).id@,
            (#[trigger] r[j]).id@,
        ) by {
            if i == 0 {
                assert(r[0] == s[0]);
                let e = r[j];
                assert(e == ins[j - 1]);
                if e == x {
                    assert(lex_le(s[0].id@, x.id@));
                } else {
                    assert(df.contains(e));
                    let m = choose|m: int| 0 <= m < df.len() && df[m] == e;
                    assert(s[m + 1] == e);
                }
            } else {
                assert(r[i] == ins[i - 1]);
                assert(r[j] == ins[j - 1]);
            }
        }
    }
}

proof fn lemma_spec_insert_multiset(x: Service, s: Seq<Service>)
    ensures
        spec_insert(x, s).to_multiset() =~= s.to_multiset().insert(x),
    decreases s.len(),
{
    broadcast use vstd::seq_lib::group_to_multiset_ensures;

    if s.len() == 0 {
        assert(spec_insert(x, s) =~= Seq::<Service>::empty().push(x));
        assert(s.to_multiset() =~= Multiset::<Service>::empty());
    } else if lex_le(x.id@, s[0].id@) {
        let t = spec_insert(x, s);
        assert(t.remove(0) =~= s);
        assert(t[0] == x);
        assert(s.to_multiset() =~= t.to_multiset().remove(x));
        assert(t.contains(x)) by {
            assert(t[0] == x);
        }
        assert(t.to_multiset().count(x) > 0);
        assert(t.to_multiset() =~= s.to_multiset().insert(x));
    } else {
        let df = s.drop_first();
        lemma_spec_insert_multiset(x, df);
        let ins = spec_insert(x, df);
        let t = spec_insert(x, s);
        assert(t.remove(0) =~= ins);
        assert(t[0] == s[0]);
        assert(ins.to_multiset() =~= t.to_multiset().remove(s[0]));
        assert(t.contains(s[0])) by {
            assert(t[0] == s[0]);
        }
        assert(t.to_multiset().count(s[0]) > 0);
        assert(s.remove(0) =~= df);
        assert(df.to_multiset() =~= s.to_multiset().remove(s[0]));
        assert(s.contains(s[0])) by {
            assert(s[0] == s[0]);
        }
        assert(s.to_multiset().count(s[0]) > 0);
        assert forall|a: Service|
            t.to_multiset().count(a) == s.to_multiset().insert(x).count(a) by {
            assert(ins.to_multiset().count(a) == t.to_multiset().remove(s[0]).count(a));
            assert(ins.to_multiset().count(a) == df.to_multiset().insert(x).count(a));
            assert(df.to_multiset().count(a) == s.to_multiset().remove(s[0]).count(a));
        }
        assert(t.to_multiset() =~= s.to_multiset().insert(x));
    }
}

/// What ordering the services guarantees: the ordered sequence is a
/// permutation of the input, and its ids stand in lexicographic order.
pub proof fn lemma_sort_services_ensures(s: Seq<Service>)
    ensures
        spec_sort(s).to_multiset() =~= s.to_multiset(),
        sorted_by_id(spec_sort(s)),
    decreases s.len(),
{
    broadcast use vstd::seq_lib::group_to_multiset_ensures;

    if s.len() == 0 {
    } else {
        let dl = s.drop_last();
        lemma_sort_services_ensures(dl);
        lemma_spec_insert_sorted(s.last(), spec_sort(dl));
        lemma_spec_insert_multiset(s.last(), spec_sort(dl));
        assert(dl.push(s.last()) =~= s);
        assert(dl.push(s.last()).to_multiset() =~= dl.to_multiset().insert(s.last()));
        assert(spec_sort(s).to_multiset() =~= s.to_multiset());
    }
}

/// The order is reflexive.
pub proof fn lemma_lex_le_refl(a: Seq<char>)
    ensures
        lex_le(a, a),
    decreases a.len(),
{
    if a.len() > 0 {
        lemma_lex_le_refl(a.drop_first());
    }
}

proof fn lemma_two_positions_give_count_two(s: Seq<Service>, i: int, j: int)
    requires
        0 <= i < j < s.len(),
        s[i] == s[j],
    ensures
        s.to_multiset().count(s[i]) >= 2,
{
    broadcast use vstd::seq_lib::group_to_multiset_ensures;

    assert(s.remove(i).to_multiset() =~= s.to_multiset().remove(s[i]));
    assert(s.remove(i)[j - 1] == s[j]);
    assert(s.remove(i).contains(s[j]));
    assert(s.remove(i).to_multiset().count(s[j]) > 0);
}

proof fn lemma_count_two_gives_two_positions(s: Seq<Service>, v: Service)
    requires
        s.to_multiset().count(v) >= 2,
    ensures
        exists|i: int, j: int| 0 <= i < j < s.len() && s[i] == v && s[j] == v,
{
    broadcast use vstd::seq_lib::group_to_multiset_ensures;

    assert(s.contains(v));
    let i = choose|i: int| 0 <= i < s.len() && s[i] == v;
    assert(s.remove(i).to_multiset() =~= s.to_multiset().remove(v));
    assert(s.remove(i).to_multiset().count(v) > 0);
    assert(s.remove(i).contains(v));
    let m = choose|m: int| 0 <= m < s.remove(i).len() && s.remove(i)[m] == v;
    if m < i {
        assert(s[m] == v);
        assert(0 <= m < i < s.len() && s[m] == v && s[i] == v);
    } else {
        assert(s[m + 1] == v);
        assert(0 <= i < m + 1 < s.len() && s[i] == v && s[m + 1] == v);
    }
}

proof fn lemma_same_multiset_distinct_ids(a: Seq<Service>, b: Seq<Service>)
    requires
        a.to_multiset() == b.to_multiset(),
        distinct_seqs(service_ids(a)),
    ensures
        distinct_seqs(service_ids(b)),
{
    broadcast use vstd::seq_lib::group_to_multiset_ensures;

    assert forall|i: int, j: int| 0 <= i < j < b.len() implies service_ids(b)[i] != service_ids(
        b,
    )[j] by {
        assert(service_ids(b)[i] == b[i].id@);
        assert(service_ids(b)[j] == b[j].id@);
        if b[i].id@ == b[j].id@ {
            if b[i] == b[j] {
                lemma_two_positions_give_count_two(b, i, j);
                lemma_count_two_gives_two_positions(a, b[i]);
                let (p, q): (int, int) = choose|p: int, q: int|
                    0 <= p < q < a.len() && a[p] == b[i] && a[q] == b[i];
                assert(service_ids(a)[p] == service_ids(a)[q]);
            } else {
                assert(b.contains(b[i]));
                assert(b.contains(b[j]));
                assert(a.to_multiset().count(b[i]) > 0);
                assert(a.to_multiset().count(b[j]) > 0);
                assert(a.contains(b[i]));
                assert(a.contains(b[j]));
                let p = choose|p: int| 0 <= p < a.len() && a[p] == b[i];
                let q = choose|q: int| 0 <= q < a.len() && a[q] == b[j];
                assert(p != q);
                if p < q {
                    assert(service_ids(a)[p] == service_ids(a)[q]);
                } else {
                    assert(service_ids(a)[q] == service_ids(a)[p]);
                }
            }
        }
    }
}

proof fn lemma_sorted_unique(a: Seq<Service>, b: Seq<Service>)
    requires
        sorted_by_id(a),
        sorted_by_id(b),
        a.to_multiset() == b.to_multiset(),
        distinct_seqs(service_ids(a)),
    ensures
        a == b,
    decreases a.len(),
{
    broadcast use vstd::seq_lib::group_to_multiset_ensures;

    vstd::seq_lib::to_multiset_len(a);
    vstd::seq_lib::to_multiset_len(b);
    assert(a.len() == b.len());
    if a.len() == 0 {
        assert(a =~= b);
    } else {
        assert(a.contains(a[0]));
        assert(b.to_multiset().count(a[0]) > 0);
        assert(b.contains(a[0]));
        let j = choose|j: int| 0 <= j < b.len() && b[j] == a[0];
        assert(b.contains(b[0]));
        assert(a.to_multiset().count(b[0]) > 0);
        assert(a.contains(b[0]));
        let i = choose|i: int| 0 <= i < a.len() && a[i] == b[0];
        assert(lex_le(b[0].id@, a[0].id@)) by {
            if j == 0 {
                lemma_lex_le_refl(a[0].id@);
            }
        }
        assert(lex_le(a[0].id@, b[0].id@)) by {
            if i == 0 {
                lemma_lex_le_refl(a[0].id@);
            }
        }
        lemma_lex_le_antisym(a[0].id@, b[0].id@);
        assert(a[0] == b[0]) by {
            if i != 0 {
                assert(service_ids(a)[0] == a[0].id@);
                assert(service_ids(a)[i] == a[i].id@);
            }
        }
        let da = a.drop_first();
        let db = b.drop_first();
        assert(da =~= a.remove(0));
        assert(db =~= b.remove(0));
        assert(da.to_multiset() =~= a.to_multiset().remove(a[0]));
        assert(db.to_multiset() =~= b.to_multiset().remove(b[0]));
        assert(da.to_multiset() == db.to_multiset());
        assert(sorted_by_id(da)) by {
            assert forall|p: int, q: int| 0 <= p < q < da.len() implies lex_le(
                (#[trigger] da[p]).id@,
                (#[trigger] da[q]).id@,
            ) by {
                assert(da[p] == a[p + 1]);
                assert(da[q] == a[q + 1]);
            }
        }
        assert(sorted_by_id(db)) by {
            assert forall|p: int, q: int| 0 <= p < q < db.len() implies lex_le(
                (#[trigger] db[p]).id@,
                (#[trigger] db[q]).id@,
            ) by {
                assert(db[p] == b[p + 1]);
                assert(db[q] == b[q + 1]);
            }
        }
        assert(distinct_seqs(service_ids(da))) by {
            assert forall|p: int, q: int| 0 <= p < q < da.len() implies service_ids(da)[p]
                != service_ids(da)[q] by {
                assert(service_ids(da)[p] == a[p + 1].id@);
                assert(service_ids(da)[q] == a[q + 1].id@);
                assert(service_ids(a)[p + 1] == a[p + 1].id@);
                assert(service_ids(a)[q + 1] == a[q + 1].id@);
            }
        }
        lemma_sorted_unique(da, db);
        assert forall|k: int| 0 <= k < a.len() implies a[k] == b[k] by {
            if k > 0 {
                assert(da[k - 1] == db[k - 1]);
            }
        }
        assert(a =~= b);
    }
}

/// A run's artifacts do not depend on the order in which its service
/// documents were discovered: over two arrangements of the same services,
/// their ids distinct, the artifacts are identical, byte for byte.
pub proof fn lemma_artifacts_order_independent<G: CodeGenerator>(
    g: G,
    c: Config,
    ss1: Seq<Service>,
    ss2: Seq<Service>,
)
    requires
        ss1.to_multiset() == ss2.to_multiset(),
        distinct_seqs(service_ids(ss1)),
    ensures
        spec_artifacts(g, c, ss1) == spec_artifacts(g, c, ss2),
{
    lemma_sort_services_ensures(ss1);
    lemma_sort_services_ensures(ss2);
    lemma_same_multiset_distinct_ids(ss1, spec_sort(ss1));
    lemma_sorted_unique(spec_sort(ss1), spec_sort(ss2));
}

fn insert_position(v: &Vec<Service>, x: &Service) -> (j: usize)
    ensures
        j <= v@.len(),
        forall|k: int| 0 <= k < j ==> !lex_le(x.id@, (#[trigger] v@[k]).id@),
        j < v@.len() ==> lex_le(x.id@, v@[j as int].id@),
{
    let mut j: usize = 0;
    while j < v.len()
        invariant
            j <= v@.len(),
            forall|k: int| 0 <= k < j ==> !lex_le(x.id@, (#[trigger] v@[k]).id@),
        decreases v@.len() - j,
    {
        if id_le(x.id.as_str(), v[j].id.as_str()) {
            return j;
        }
        j = j + 1;
    }
    j
}

fn insert_sorted(v: Vec<Service>, x: Service) -> (r: Vec<Service>)
    ensures
        r@ == spec_insert(x, v@),
{
    let j = insert_position(&v, &x);
    proof {
        lemma_spec_insert_at(x, v@, j as int);
    }
    let mut r = v;
    r.insert(j, x);
    proof {
        assert(r@ =~= v@.take(j as int) + seq![x] + v@.skip(j as int));
    }
    r
}

/// Orders the services lexicographically by id, so that a run renders them
/// in an explicit deterministic order whatever order they were found in.
pub fn sort_services(services: Vec<Service>) -> (r: Vec<Service>)
    ensures
        r@ == spec_sort(services@),
{
    let ghost orig = services@;
    let mut rest = services;
    let mut out: Vec<Service> = Vec::new();
    let total = rest.len();
    let mut i: usize = 0;
    assert(out@ =~= spec_sort(orig.take(0)));
    while i < total
        invariant
            i <= total,
            total == orig.len(),
            rest@ == orig.skip(i as int),
            out@ == spec_sort(orig.take(i as int)),
        decreases total - i,
    {
        let x = rest.remove(0);
        proof {
            assert(orig.skip(i as int)[0] == orig[i as int]);
            assert(orig.skip(i as int).remove(0) =~= orig.skip(i as int + 1));
            assert(orig.take(i as int + 1).drop_last() =~= orig.take(i as int));
            assert(orig.take(i as int + 1).last() == orig[i as int]);
        }
        out = insert_sorted(out, x);
        i = i + 1;
    }
    proof {
        assert(orig.take(total as int) =~= orig);
    }
    out
}

/// The concatenated per-service output of a backend over the given services,
/// in the given order.
pub open spec fn services_output<G: CodeGenerator>(g: G, ss: Seq<Service>) -> Seq<char> {
    cat_map(ss, |s: Service| g.spec_service_output(s))
}

proof fn lemma_services_output_step<G: CodeGenerator>(g: G, ss: Seq<Service>, i: int)
    requires
        0 <= i < ss.len(),
    ensures
        services_output(g, ss.take(i + 1)) == services_output(g, ss.take(i))
            + g.spec_service_output(ss[i]),
{
    assert(ss.take(i + 1).drop_last() =~= ss.take(i));
    assert(ss.take(i + 1).last() == ss[i]);
}

/// Every artifact of a run, as path/content pairs: the backend's scaffold
/// files, then its primary source file, holding the global output followed by
/// each service's output with the services ordered by id.
pub open spec fn spec_artifacts<G: CodeGenerator>(g: G, c: Config, ss: Seq<Service>) -> Seq<
    (Seq<char>, Seq<char>),
> {
    g.spec_project_files(c) + seq![
        (
            g.spec_source_dir() + "/"@ + g.spec_source_file(),
            g.spec_config_output(c) + services_output(g, spec_sort(ss)),
        ),
    ]
}

/// Runs one whole generation: validates the schema, and on success renders
/// every artifact of the backend, deterministically. Succeeds exactly when
/// the schema is valid; on failure it reports the defect and produces no
/// output at all.
pub fn generate<G: CodeGenerator>(g: &G, config: &Config, services: Vec<Service>) -> (r: Result<
    Vec<(String, String)>,
    Error,
>)
    ensures
        r is Ok <==> valid_schema(*config, services@),
        (r matches Ok(arts) ==> file_views(arts@) == spec_artifacts(*g, *config, services@)),
        (r matches Err(e) ==> e matches Error::SchemaValidation(v) && spec_violation(
            v,
            *config,
            services@,
        )),
{
    match validate(config, &services) {
        Err(v) => Err(Error::SchemaValidation(v)),
        Ok(()) => {
            let sorted = sort_services(services);
            let mut arts = g.project_files(config);
            let ghost scaffold = arts@;
            let mut source = String::new();
            match g.config(config, &mut source) {
                Ok(()) => {},
                Err(e) => {
                    return Err(e);
                },
            }
            let mut i: usize = 0;
            while i < sorted.len()
                invariant
                    i <= sorted@.len(),
                    source@ == g.spec_config_output(*config) + services_output(
                        *g,
                        sorted@.take(i as int),
                    ),
                decreases sorted@.len() - i,
            {
                match g.service(&sorted[i], &mut source) {
                    Ok(()) => {},
                    Err(e) => {
                        return Err(e);
                    },
                }
                proof {
                    lemma_services_output_step(*g, sorted@, i as int);
                    assert(source@ =~= g.spec_config_output(*config) + services_output(
                        *g,
                        sorted@.take(i as int + 1),
                    ));
                }
                i = i + 1;
            }
            proof {
                assert(sorted@.take(sorted@.len() as int) =~= sorted@);
            }
            let mut path = g.source_dir();
            path.append("/");
            let file = g.source_file();
            path.append(file.as_str());
            arts.push((path, source));
            proof {
                assert(file_views(arts@) =~= spec_artifacts(*g, *config, services@));
            }
            Ok(arts)
        },
    }
}

} // verus!
