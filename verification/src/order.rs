//! The order in which names are listed: character by character, comparing
//! the lowercase forms of the characters, a name that runs out first coming
//! first.

use vstd::prelude::*;

verus! {

/// The lowercase mapping of `c` (what `char::to_lowercase` yields).
pub uninterp spec fn lowercase(c: char) -> Seq<char>;

/// The lowercase mapping of `c`, one or more characters.
///
/// Trusted: calls `char::to_lowercase` and collects what its iterator
/// yields. std documents the iterator as yielding the lowercase mapping of
/// the char; the mapping is a function of `c` alone and is named
/// `lowercase` here. The Unicode tables behind it are left unsaid.
#[verifier::external_body]
pub(crate) fn to_lowercase(c: char) -> (r: Vec<char>)
    ensures
        r@ == lowercase(c),
{
    c.to_lowercase().collect()
}

/// Three-way lexicographic comparison of character sequences by code point
/// (-1, 0 or 1), a sequence that runs out first being smaller.
pub open spec fn char_order(a: Seq<char>, b: Seq<char>) -> int
    decreases a.len(),
{
    if a.len() == 0 {
        if b.len() == 0 {
            0
        } else {
            -1
        }
    } else if b.len() == 0 {
        1
    } else if (a[0] as u32) < (b[0] as u32) {
        -1
    } else if (a[0] as u32) > (b[0] as u32) {
        1
    } else {
        char_order(a.drop_first(), b.drop_first())
    }
}

/// The sort key of a name: the lowercase mapping of each of its characters.
pub open spec fn name_key(name: Seq<char>) -> Seq<Seq<char>> {
    name.map_values(|c: char| lowercase(c))
}

/// Three-way lexicographic comparison of sort keys, comparing elements with
/// `char_order`.
pub open spec fn key_order(a: Seq<Seq<char>>, b: Seq<Seq<char>>) -> int
    decreases a.len(),
{
    if a.len() == 0 {
        if b.len() == 0 {
            0
        } else {
            -1
        }
    } else if b.len() == 0 {
        1
    } else if char_order(a[0], b[0]) != 0 {
        char_order(a[0], b[0])
    } else {
        key_order(a.drop_first(), b.drop_first())
    }
}

/// Three-way comparison of names by their sort keys.
pub open spec fn name_order(a: Seq<char>, b: Seq<char>) -> int {
    key_order(name_key(a), name_key(b))
}

pub proof fn lemma_chars_range(a: Seq<char>, b: Seq<char>)
    ensures
        -1 <= char_order(a, b) <= 1,
    decreases a.len(),
{
    if a.len() > 0 && b.len() > 0 {
        lemma_chars_range(a.drop_first(), b.drop_first());
    }
}

pub proof fn lemma_chars_antisymmetric(a: Seq<char>, b: Seq<char>)
    ensures
        char_order(a, b) == -char_order(b, a),
    decreases a.len(),
{
    if a.len() > 0 && b.len() > 0 {
        lemma_chars_antisymmetric(a.drop_first(), b.drop_first());
    }
}

pub proof fn lemma_chars_zero(a: Seq<char>, b: Seq<char>)
    ensures
        char_order(a, b) == 0 <==> a == b,
    decreases a.len(),
{
    if a.len() > 0 && b.len() > 0 {
        lemma_chars_zero(a.drop_first(), b.drop_first());
        if (a[0] as u32) == (b[0] as u32) {
            vstd::utf8::char_u32_cast(a[0], a[0] as u32);
            vstd::utf8::char_u32_cast(b[0], b[0] as u32);
            if a.drop_first() == b.drop_first() {
                assert(a =~= seq![a[0]] + a.drop_first());
                assert(b =~= seq![b[0]] + b.drop_first());
            }
        }
        if a == b {
            assert(a.drop_first() == b.drop_first());
        }
    } else if a.len() == 0 && b.len() == 0 {
        assert(a =~= b);
    }
}

pub proof fn lemma_chars_transitive(a: Seq<char>, b: Seq<char>, c: Seq<char>)
    requires
        char_order(a, b) <= 0,
        char_order(b, c) <= 0,
    ensures
        char_order(a, c) <= 0,
    decreases a.len(),
{
    if a.len() > 0 && b.len() > 0 && c.len() > 0 {
        if (a[0] as u32) == (b[0] as u32) && (b[0] as u32) == (c[0] as u32) {
            lemma_chars_transitive(a.drop_first(), b.drop_first(), c.drop_first());
        }
    }
}

pub proof fn lemma_keys_range(a: Seq<Seq<char>>, b: Seq<Seq<char>>)
    ensures
        -1 <= key_order(a, b) <= 1,
    decreases a.len(),
{
    if a.len() > 0 && b.len() > 0 {
        lemma_chars_range(a[0], b[0]);
        lemma_keys_range(a.drop_first(), b.drop_first());
    }
}

pub proof fn lemma_keys_antisymmetric(a: Seq<Seq<char>>, b: Seq<Seq<char>>)
    ensures
        key_order(a, b) == -key_order(b, a),
    decreases a.len(),
{
    if a.len() > 0 && b.len() > 0 {
        lemma_chars_antisymmetric(a[0], b[0]);
        lemma_keys_antisymmetric(a.drop_first(), b.drop_first());
    }
}

pub proof fn lemma_keys_zero(a: Seq<Seq<char>>, b: Seq<Seq<char>>)
    ensures
        key_order(a, b) == 0 <==> a == b,
    decreases a.len(),
{
    if a.len() > 0 && b.len() > 0 {
        lemma_chars_zero(a[0], b[0]);
        lemma_keys_zero(a.drop_first(), b.drop_first());
        if a[0] == b[0] && a.drop_first() == b.drop_first() {
            assert(a =~= seq![a[0]] + a.drop_first());
            assert(b =~= seq![b[0]] + b.drop_first());
        }
        if a == b {
            assert(a.drop_first() == b.drop_first());
        }
    } else if a.len() == 0 && b.len() == 0 {
        assert(a =~= b);
    }
}

pub proof fn lemma_keys_transitive(a: Seq<Seq<char>>, b: Seq<Seq<char>>, c: Seq<Seq<char>>)
    requires
        key_order(a, b) <= 0,
        key_order(b, c) <= 0,
    ensures
        key_order(a, c) <= 0,
    decreases a.len(),
{
    if a.len() > 0 && b.len() > 0 && c.len() > 0 {
        lemma_chars_range(a[0], b[0]);
        lemma_chars_range(b[0], c[0]);
        lemma_chars_zero(a[0], b[0]);
        lemma_chars_zero(b[0], c[0]);
        lemma_chars_antisymmetric(a[0], c[0]);
        lemma_chars_antisymmetric(a[0], b[0]);
        lemma_chars_antisymmetric(b[0], c[0]);
        if char_order(a[0], b[0]) < 0 || char_order(b[0], c[0]) < 0 {
            lemma_chars_transitive(a[0], b[0], c[0]);
            lemma_chars_zero(a[0], c[0]);
            if a[0] == c[0] {
                // a[0] <= b[0] <= a[0] forces all three equal
                lemma_chars_transitive(b[0], c[0], a[0]);
                lemma_chars_transitive(c[0], a[0], b[0]);
            }
        } else {
            lemma_keys_transitive(a.drop_first(), b.drop_first(), c.drop_first());
        }
    }
}

/// Three-way comparison of character sequences by code point.
pub fn compare_chars(a: &Vec<char>, b: &Vec<char>) -> (r: i8)
    ensures
        r as int == char_order(a@, b@),
{
    let mut i: usize = 0;
    assert(a@.skip(0) =~= a@);
    assert(b@.skip(0) =~= b@);
    while i < a.len() && i < b.len()
        invariant
            i <= a@.len(),
            i <= b@.len(),
            char_order(a@, b@) == char_order(a@.skip(i as int), b@.skip(i as int)),
        decreases a@.len() - i,
    {
        let x = a[i] as u32;
        let y = b[i] as u32;
        if x < y {
            return -1;
        }
        if x > y {
            return 1;
        }
        assert(a@.skip(i as int).drop_first() =~= a@.skip(i + 1));
        assert(b@.skip(i as int).drop_first() =~= b@.skip(i + 1));
        i = i + 1;
    }
    if i < a.len() {
        1
    } else if i < b.len() {
        -1
    } else {
        0
    }
}

/// Three-way comparison of sort keys.
pub fn compare_keys(a: &Vec<Vec<char>>, b: &Vec<Vec<char>>) -> (r: i8)
    ensures
        r as int == key_order(a.deep_view(), b.deep_view()),
{
    let ghost av = a.deep_view();
    let ghost bv = b.deep_view();
    let mut i: usize = 0;
    assert(av.skip(0) =~= av);
    assert(bv.skip(0) =~= bv);
    while i < a.len() && i < b.len()
        invariant
            av == a.deep_view(),
            bv == b.deep_view(),
            i <= a@.len(),
            i <= b@.len(),
            key_order(av, bv) == key_order(av.skip(i as int), bv.skip(i as int)),
        decreases a@.len() - i,
    {
        let c = compare_chars(&a[i], &b[i]);
        assert(av.skip(i as int)[0] == a@[i as int]@);
        assert(bv.skip(i as int)[0] == b@[i as int]@);
        if c != 0 {
            return c;
        }
        assert(av.skip(i as int).drop_first() =~= av.skip(i + 1));
        assert(bv.skip(i as int).drop_first() =~= bv.skip(i + 1));
        i = i + 1;
    }
    if i < a.len() {
        1
    } else if i < b.len() {
        -1
    } else {
        0
    }
}

/// The sort key of a name.
pub fn key_of(name: &str) -> (r: Vec<Vec<char>>)
    ensures
        r.deep_view() == name_key(name@),
{
    let n = name.unicode_len();
    let mut r: Vec<Vec<char>> = Vec::new();
    let mut i: usize = 0;
    while i < n
        invariant
            n == name@.len(),
            i <= n,
            r.deep_view() =~= name_key(name@).take(i as int),
        decreases n - i,
    {
        let c = name.get_char(i);
        let lower = to_lowercase(c);
        let ghost before = r.deep_view();
        assert(lower.deep_view() =~= lower@);
        r.push(lower);
        assert(r.deep_view() =~= before.push(lowercase(c)));
        assert(name_key(name@)[i as int] == lowercase(c));
        i = i + 1;
    }
    r
}

} // verus!
