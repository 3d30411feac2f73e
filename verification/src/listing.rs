//! Embed fields listing members by name, and their stable ordering.

use crate::order::{
    compare_keys, key_of, key_order, lemma_keys_antisymmetric,
    lemma_keys_transitive, lemma_keys_zero, name_key, name_order,
};
use vstd::prelude::*;

verus! {

/// One line of an embed: a title and its text.
#[derive(Debug)]
pub struct Field {
    pub name: String,
    pub value: String,
}

/// The sort key of a field's title.
pub open spec fn field_key(f: Field) -> Seq<Seq<char>> {
    name_key(f.name@)
}

/// The fields whose title has sort key `k`, in their order.
pub open spec fn with_key(fs: Seq<Field>, k: Seq<Seq<char>>) -> Seq<Field>
    decreases fs.len(),
{
    if fs.len() == 0 {
        Seq::empty()
    } else {
        let rest = with_key(fs.drop_last(), k);
        if field_key(fs.last()) == k {
            rest.push(fs.last())
        } else {
            rest
        }
    }
}

/// Titles in listing order: no title comes after one that orders below it.
pub open spec fn sorted_by_name(fs: Seq<Field>) -> bool {
    forall|i: int, j: int|
        0 <= i < j < fs.len() ==> key_order(field_key(#[trigger] fs[i]), field_key(#[trigger] fs[j]))
            <= 0
}

pub proof fn lemma_with_key_concat(a: Seq<Field>, b: Seq<Field>, k: Seq<Seq<char>>)
    ensures
        with_key(a + b, k) == with_key(a, k) + with_key(b, k),
    decreases b.len(),
{
    if b.len() == 0 {
        assert(a + b =~= a);
        assert(with_key(a, k) + with_key(b, k) =~= with_key(a, k));
    } else {
        assert((a + b).drop_last() =~= a + b.drop_last());
        assert((a + b).last() == b.last());
        lemma_with_key_concat(a, b.drop_last(), k);
        if field_key(b.last()) == k {
            assert(with_key(a, k) + with_key(b.drop_last(), k).push(b.last()) =~= (with_key(a, k)
                + with_key(b.drop_last(), k)).push(b.last()));
        }
    }
}

pub proof fn lemma_with_key_single(x: Field, k: Seq<Seq<char>>)
    ensures
        with_key(seq![x], k) == if field_key(x) == k {
            seq![x]
        } else {
            Seq::<Field>::empty()
        },
{
    assert(seq![x].drop_last() =~= Seq::<Field>::empty());
    assert(seq![x].last() == x);
    assert(with_key(Seq::<Field>::empty(), k) == Seq::<Field>::empty());
    if field_key(x) == k {
        assert(Seq::<Field>::empty().push(x) =~= seq![x]);
    }
}

/// No field of `fs` has sort key `k`: `with_key` of it is empty.
pub proof fn lemma_with_key_none(fs: Seq<Field>, k: Seq<Seq<char>>)
    requires
        forall|i: int| 0 <= i < fs.len() ==> field_key(#[trigger] fs[i]) != k,
    ensures
        with_key(fs, k) == Seq::<Field>::empty(),
    decreases fs.len(),
{
    if fs.len() > 0 {
        assert(forall|i: int|
            0 <= i < fs.drop_last().len() ==> fs.drop_last()[i] == #[trigger] fs[i]);
        lemma_with_key_none(fs.drop_last(), k);
    }
}

/// Inserting `x` after every field that does not order above it, and before
/// the first that does, keeps a sorted list sorted and appends `x` to its
/// key class.
pub proof fn lemma_insert_sorted(s: Seq<Field>, p: int, x: Field)
    requires
        sorted_by_name(s),
        0 <= p <= s.len(),
        forall|q: int| 0 <= q < p ==> key_order(field_key(#[trigger] s[q]), field_key(x)) <= 0,
        p < s.len() ==> key_order(field_key(s[p]), field_key(x)) > 0,
    ensures
        sorted_by_name(s.insert(p, x)),
        forall|k: Seq<Seq<char>>|
            with_key(s.insert(p, x), k) == #[trigger] with_key(s, k) + with_key(seq![x], k),
{
    let t = s.insert(p, x);
    let kx = field_key(x);
    // every field from p on orders strictly above x
    assert forall|q: int| p <= q < s.len() implies key_order(kx, field_key(#[trigger] s[q])) < 0
        && field_key(s[q]) != kx by {
        lemma_keys_antisymmetric(field_key(s[p]), kx);
        if q > p {
            lemma_keys_transitive(kx, field_key(s[p]), field_key(s[q]));
            lemma_keys_zero(kx, field_key(s[q]));
            if kx == field_key(s[q]) {
                lemma_keys_zero(field_key(s[q]), kx);
            }
        }
        lemma_keys_zero(kx, field_key(s[q]));
        lemma_keys_antisymmetric(kx, field_key(s[q]));
    }
    assert forall|i: int, j: int| 0 <= i < j < t.len() implies key_order(
        field_key(#[trigger] t[i]),
        field_key(#[trigger] t[j]),
    ) <= 0 by {
        if j < p {
            assert(t[i] == s[i] && t[j] == s[j]);
        } else if j == p {
            assert(t[i] == s[i] && t[j] == x);
        } else if i < p {
            assert(t[i] == s[i] && t[j] == s[j - 1]);
            lemma_keys_transitive(field_key(s[i]), kx, field_key(s[j - 1]));
        } else if i == p {
            assert(t[i] == x && t[j] == s[j - 1]);
        } else {
            assert(t[i] == s[i - 1] && t[j] == s[j - 1]);
        }
    }
    assert forall|k: Seq<Seq<char>>| with_key(t, k) == #[trigger] with_key(s, k) + with_key(
        seq![x],
        k,
    ) by {
        let a = s.subrange(0, p);
        let b = s.subrange(p, s.len() as int);
        assert(s =~= a + b);
        assert(t =~= a + seq![x] + b);
        lemma_with_key_concat(a + seq![x], b, k);
        lemma_with_key_concat(a, seq![x], k);
        lemma_with_key_concat(a, b, k);
        lemma_with_key_single(x, k);
        if kx == k {
            assert forall|i: int| 0 <= i < b.len() implies field_key(#[trigger] b[i]) != k by {
                assert(b[i] == s[p + i]);
            }
            lemma_with_key_none(b, k);
            assert(with_key(t, k) =~= with_key(a, k) + seq![x]);
            assert(with_key(s, k) =~= with_key(a, k));
        } else {
            assert(with_key(t, k) =~= with_key(a, k) + with_key(b, k));
        }
    }
}

/// A field as a pair of character sequences.
pub open spec fn field_view(f: Field) -> (Seq<char>, Seq<char>) {
    (f.name@, f.value@)
}

/// The fields as pairs of character sequences.
pub open spec fn views(fs: Seq<Field>) -> Seq<(Seq<char>, Seq<char>)> {
    fs.map_values(|f: Field| field_view(f))
}

/// The pairs whose title has sort key `k`, in their order.
pub open spec fn with_key_views(vs: Seq<(Seq<char>, Seq<char>)>, k: Seq<Seq<char>>) -> Seq<
    (Seq<char>, Seq<char>),
>
    decreases vs.len(),
{
    if vs.len() == 0 {
        Seq::empty()
    } else {
        let rest = with_key_views(vs.drop_last(), k);
        if name_key(vs.last().0) == k {
            rest.push(vs.last())
        } else {
            rest
        }
    }
}

/// `out` is what a stable sort by title makes of `input`: as long, sorted,
/// and with each group of equal sort keys in its given order.
pub open spec fn stably_sorted(out: Seq<(Seq<char>, Seq<char>)>, input: Seq<(Seq<char>, Seq<char>)>) -> bool {
    &&& out.len() == input.len()
    &&& forall|i: int, j: int|
        0 <= i < j < out.len() ==> key_order(name_key((#[trigger] out[i]).0), name_key((#[trigger] out[j]).0)) <= 0
    &&& forall|k: Seq<Seq<char>>| #[trigger] with_key_views(out, k) == with_key_views(input, k)
}

pub proof fn lemma_with_key_views(fs: Seq<Field>, k: Seq<Seq<char>>)
    ensures
        views(with_key(fs, k)) == with_key_views(views(fs), k),
    decreases fs.len(),
{
    if fs.len() > 0 {
        lemma_with_key_views(fs.drop_last(), k);
        assert(views(fs).drop_last() =~= views(fs.drop_last()));
        assert(views(fs).last() == field_view(fs.last()));
        if field_key(fs.last()) == k {
            assert(views(with_key(fs.drop_last(), k).push(fs.last())) =~= views(
                with_key(fs.drop_last(), k),
            ).push(field_view(fs.last())));
        }
    } else {
        assert(views(with_key(fs, k)) =~= Seq::<(Seq<char>, Seq<char>)>::empty());
    }
}

/// A stable sort of fields is a stable sort of their views.
pub proof fn lemma_stably_sorted_views(out: Seq<Field>, input: Seq<Field>)
    requires
        out.len() == input.len(),
        sorted_by_name(out),
        forall|k: Seq<Seq<char>>| #[trigger] with_key(out, k) == with_key(input, k),
    ensures
        stably_sorted(views(out), views(input)),
{
    assert forall|k: Seq<Seq<char>>| #[trigger] with_key_views(views(out), k) == with_key_views(views(input), k) by {
        lemma_with_key_views(out, k);
        lemma_with_key_views(input, k);
        assert(with_key(out, k) == with_key(input, k));
    }
    assert forall|i: int, j: int|
        0 <= i < j < views(out).len() implies key_order(name_key((#[trigger] views(out)[i]).0), name_key((#[trigger] views(out)[j]).0)) <= 0 by {
        assert(views(out)[i] == field_view(out[i]));
        assert(views(out)[j] == field_view(out[j]));
    }
}

/// Titles in listing order.
pub open spec fn sorted_views(vs: Seq<(Seq<char>, Seq<char>)>) -> bool {
    forall|i: int, j: int|
        0 <= i < j < vs.len() ==> key_order(name_key((#[trigger] vs[i]).0), name_key((#[trigger] vs[j]).0)) <= 0
}

/// Something of key `k` occurs in `vs` when `with_key_views` of it is not
/// empty.
proof fn lemma_with_key_views_witness(vs: Seq<(Seq<char>, Seq<char>)>, k: Seq<Seq<char>>)
    requires
        with_key_views(vs, k).len() > 0,
    ensures
        exists|j: int| 0 <= j < vs.len() && name_key((#[trigger] vs[j]).0) == k,
    decreases vs.len(),
{
    if vs.len() > 0 {
        if name_key(vs.last().0) == k {
            assert(name_key(vs[vs.len() - 1].0) == k);
        } else {
            lemma_with_key_views_witness(vs.drop_last(), k);
            let j = choose|j: int| 0 <= j < vs.drop_last().len() && name_key((#[trigger] vs.drop_last()[j]).0) == k;
            assert(vs[j] == vs.drop_last()[j]);
        }
    }
}

/// Two sorted arrangements with the same key groups are the same.
proof fn lemma_sorted_arrangement_unique(a: Seq<(Seq<char>, Seq<char>)>, b: Seq<(Seq<char>, Seq<char>)>)
    requires
        a.len() == b.len(),
        sorted_views(a),
        sorted_views(b),
        forall|k: Seq<Seq<char>>| #[trigger] with_key_views(a, k) == with_key_views(b, k),
    ensures
        a == b,
    decreases a.len(),
{
    if a.len() == 0 {
        assert(a =~= b);
    } else {
        let x = a.last();
        let y = b.last();
        let kx = name_key(x.0);
        let ky = name_key(y.0);
        // the last key of each is the greatest of either
        assert(with_key_views(a, kx).len() > 0);
        assert(with_key_views(b, kx).len() > 0);
        lemma_with_key_views_witness(b, kx);
        let jb = choose|j: int| 0 <= j < b.len() && name_key((#[trigger] b[j]).0) == kx;
        if jb < b.len() - 1 {
            assert(key_order(name_key(b[jb].0), name_key(b[b.len() - 1].0)) <= 0);
        } else {
            lemma_keys_zero(kx, ky);
        }
        assert(key_order(kx, ky) <= 0);
        assert(with_key_views(b, ky).len() > 0);
        assert(with_key_views(a, ky).len() > 0);
        lemma_with_key_views_witness(a, ky);
        let ja = choose|j: int| 0 <= j < a.len() && name_key((#[trigger] a[j]).0) == ky;
        if ja < a.len() - 1 {
            assert(key_order(name_key(a[ja].0), name_key(a[a.len() - 1].0)) <= 0);
        } else {
            lemma_keys_zero(ky, kx);
        }
        assert(key_order(ky, kx) <= 0);
        lemma_keys_antisymmetric(kx, ky);
        lemma_keys_zero(kx, ky);
        assert(kx == ky);
        assert(with_key_views(a, kx) == with_key_views(a.drop_last(), kx).push(x));
        assert(with_key_views(b, kx) == with_key_views(b.drop_last(), kx).push(y));
        assert(x == with_key_views(a, kx).last());
        assert(y == with_key_views(b, kx).last());
        assert(x == y);
        assert forall|k: Seq<Seq<char>>| #[trigger] with_key_views(a.drop_last(), k) == with_key_views(b.drop_last(), k) by {
            if k == kx {
                assert(with_key_views(a.drop_last(), k) =~= with_key_views(a, k).drop_last());
                assert(with_key_views(b.drop_last(), k) =~= with_key_views(b, k).drop_last());
            } else {
                assert(with_key_views(a, k) == with_key_views(a.drop_last(), k));
                assert(with_key_views(b, k) == with_key_views(b.drop_last(), k));
            }
        }
        assert forall|i: int, j: int| 0 <= i < j < a.drop_last().len() implies key_order(
            name_key((#[trigger] a.drop_last()[i]).0),
            name_key((#[trigger] a.drop_last()[j]).0),
        ) <= 0 by {
            assert(a.drop_last()[i] == a[i] && a.drop_last()[j] == a[j]);
        }
        assert forall|i: int, j: int| 0 <= i < j < b.drop_last().len() implies key_order(
            name_key((#[trigger] b.drop_last()[i]).0),
            name_key((#[trigger] b.drop_last()[j]).0),
        ) <= 0 by {
            assert(b.drop_last()[i] == b[i] && b.drop_last()[j] == b[j]);
        }
        lemma_sorted_arrangement_unique(a.drop_last(), b.drop_last());
        assert(a =~= a.drop_last().push(x));
        assert(b =~= b.drop_last().push(y));
    }
}

/// A stable sort has one outcome: any two stable sorts of the same fields
/// agree.
pub proof fn law_stable_sort_is_unique(
    a: Seq<(Seq<char>, Seq<char>)>,
    b: Seq<(Seq<char>, Seq<char>)>,
    input: Seq<(Seq<char>, Seq<char>)>,
)
    requires
        stably_sorted(a, input),
        stably_sorted(b, input),
    ensures
        a == b,
{
    assert forall|k: Seq<Seq<char>>| #[trigger] with_key_views(a, k) == with_key_views(b, k) by {
        assert(with_key_views(a, k) == with_key_views(input, k));
        assert(with_key_views(b, k) == with_key_views(input, k));
    }
    lemma_sorted_arrangement_unique(a, b);
}

/// Sorting fields that are already in listing order leaves them as they
/// are.
pub proof fn law_sorting_sorted_changes_nothing(out: Seq<(Seq<char>, Seq<char>)>, input: Seq<(Seq<char>, Seq<char>)>)
    requires
        sorted_views(input),
        stably_sorted(out, input),
    ensures
        out == input,
{
    law_stable_sort_is_unique(out, input, input);
}

/// The fields ordered by title, case-insensitively, as a stable sort would:
/// sorted, and within each group of equal sort keys in their given order.
pub fn sort_fields(fields: Vec<Field>) -> (r: Vec<Field>)
    ensures
        r@.len() == fields@.len(),
        sorted_by_name(r@),
        forall|k: Seq<Seq<char>>| #[trigger] with_key(r@, k) == with_key(fields@, k),
        stably_sorted(views(r@), views(fields@)),
{
    let ghost input = fields@;
    let mut rest = fields;
    let mut out: Vec<Field> = Vec::new();
    let mut keys: Vec<Vec<Vec<char>>> = Vec::new();
    let ghost mut done: int = 0;
    assert(input.take(0) =~= Seq::<Field>::empty());
    while rest.len() > 0
        invariant
            0 <= done <= input.len(),
            rest@ == input.subrange(done, input.len() as int),
            out@.len() == keys@.len(),
            out@.len() == done,
            forall|j: int| 0 <= j < keys@.len() ==> #[trigger] keys@[j].deep_view() == field_key(out@[j]),
            sorted_by_name(out@),
            forall|k: Seq<Seq<char>>| #[trigger] with_key(out@, k) == with_key(input.take(done), k),
        decreases rest@.len(),
    {
        let f = rest.remove(0);
        let key = key_of(f.name.as_str());
        let mut p: usize = 0;
        loop
            invariant
                p <= out@.len(),
                out@.len() == keys@.len(),
                forall|j: int| 0 <= j < keys@.len() ==> #[trigger] keys@[j].deep_view() == field_key(out@[j]),
                key.deep_view() == field_key(f),
                forall|q: int| 0 <= q < p ==> key_order(field_key(#[trigger] out@[q]), field_key(f)) <= 0,
            ensures
                p <= out@.len(),
                forall|q: int| 0 <= q < p ==> key_order(field_key(#[trigger] out@[q]), field_key(f)) <= 0,
                p < out@.len() ==> key_order(field_key(out@[p as int]), field_key(f)) > 0,
            decreases out@.len() - p,
        {
            if p >= out.len() {
                break;
            }
            let c = compare_keys(&keys[p], &key);
            assert(keys@[p as int].deep_view() == field_key(out@[p as int]));
            if c > 0 {
                break;
            }
            p = p + 1;
        }
        proof {
            lemma_insert_sorted(out@, p as int, f);
            assert(input.take(done + 1) =~= input.take(done) + seq![f]);
            assert forall|k: Seq<Seq<char>>| #[trigger] with_key(input.take(done + 1), k) == with_key(
                input.take(done),
                k,
            ) + with_key(seq![f], k) by {
                lemma_with_key_concat(input.take(done), seq![f], k);
            }
        }
        let ghost old_keys = keys@;
        let ghost old_out = out@;
        out.insert(p, f);
        keys.insert(p, key);
        proof {
            assert forall|j: int| 0 <= j < keys@.len() implies #[trigger] keys@[j].deep_view()
                == field_key(out@[j]) by {
                if j < p {
                    assert(keys@[j] == old_keys[j] && out@[j] == old_out[j]);
                } else if j > p {
                    assert(keys@[j] == old_keys[j - 1] && out@[j] == old_out[j - 1]);
                }
            }
            let d0 = done;
            assert(out@ == old_out.insert(p as int, f));
            assert forall|k: Seq<Seq<char>>| #[trigger] with_key(out@, k) == with_key(
                input.take(d0 + 1),
                k,
            ) by {
                assert(with_key(old_out, k) == with_key(input.take(d0), k));
                assert(with_key(input.take(d0 + 1), k) == with_key(input.take(d0), k) + with_key(
                    seq![f],
                    k,
                ));
            }
            done = done + 1;
            assert(rest@ =~= input.subrange(done, input.len() as int));
        }
    }
    assert(input.take(done) =~= input);
    proof {
        lemma_stably_sorted_views(out@, input);
    }
    out
}

} // verus!
