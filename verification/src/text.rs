use vstd::prelude::*;

verus! {

/// The view of an optional text.
pub open spec fn opt_text(o: Option<String>) -> Option<Seq<char>> {
    match o {
        Some(s) => Some(s@),
        None => None,
    }
}

/// `k` is the first place at which `a` falls short of `b`: the two agree on
/// every byte before `k`, and at `k` either `a` has ended while `b` goes on,
/// or `a` holds the smaller byte.
pub open spec fn falls_short_at(a: Seq<u8>, b: Seq<u8>, k: int) -> bool {
    &&& 0 <= k <= a.len()
    &&& k < b.len()
    &&& forall|j: int| 0 <= j < k ==> a[j] == b[j]
    &&& k < a.len() ==> a[k] < b[k]
}

/// Lexicographic order on byte strings.
pub open spec fn bytes_lt(a: Seq<u8>, b: Seq<u8>) -> bool {
    exists|k: int| falls_short_at(a, b, k)
}

/// Text is ordered by its UTF-8 bytes.
pub open spec fn text_lt(a: Seq<char>, b: Seq<char>) -> bool {
    bytes_lt(vstd::utf8::encode_utf8(a), vstd::utf8::encode_utf8(b))
}

/// `a` does not come behind `b`.
pub open spec fn text_le(a: Seq<char>, b: Seq<char>) -> bool {
    !text_lt(b, a)
}

/// No byte string comes before itself.
pub proof fn lemma_bytes_lt_irreflexive(a: Seq<u8>)
    ensures
        !bytes_lt(a, a),
{
}

/// What comes before a byte string comes before whatever that string comes
/// before.
pub proof fn lemma_bytes_lt_transitive(a: Seq<u8>, b: Seq<u8>, c: Seq<u8>)
    requires
        bytes_lt(a, b),
        bytes_lt(b, c),
    ensures
        bytes_lt(a, c),
{
    let k1 = choose|k: int| falls_short_at(a, b, k);
    let k2 = choose|k: int| falls_short_at(b, c, k);
    let k = if k1 <= k2 { k1 } else { k2 };
    assert(falls_short_at(a, c, k));
}

/// Two byte strings that agree on their first `i` bytes compare.
proof fn lemma_compare_from(a: Seq<u8>, b: Seq<u8>, i: int)
    requires
        0 <= i <= a.len(),
        i <= b.len(),
        forall|j: int| 0 <= j < i ==> a[j] == b[j],
    ensures
        bytes_lt(a, b) || bytes_lt(b, a) || a == b,
    decreases a.len() - i,
{
    if i == a.len() {
        if i == b.len() {
            assert(a =~= b);
        } else {
            assert(falls_short_at(a, b, i));
        }
    } else if i == b.len() {
        assert(falls_short_at(b, a, i));
    } else if a[i] < b[i] {
        assert(falls_short_at(a, b, i));
    } else if b[i] < a[i] {
        assert(falls_short_at(b, a, i));
    } else {
        lemma_compare_from(a, b, i + 1);
    }
}

/// Of two byte strings one comes first, or they are the same string.
pub proof fn lemma_bytes_lt_total(a: Seq<u8>, b: Seq<u8>)
    ensures
        bytes_lt(a, b) || bytes_lt(b, a) || a == b,
{
    lemma_compare_from(a, b, 0);
}

/// Any two texts compare.
pub proof fn lemma_text_le_total(a: Seq<char>, b: Seq<char>)
    ensures
        text_le(a, b) || text_le(b, a),
{
    let x = vstd::utf8::encode_utf8(a);
    let y = vstd::utf8::encode_utf8(b);
    if bytes_lt(x, y) && bytes_lt(y, x) {
        lemma_bytes_lt_transitive(x, y, x);
        lemma_bytes_lt_irreflexive(x);
    }
}

/// A text that does not come behind a second, which does not come behind a
/// third, does not come behind the third.
pub proof fn lemma_text_le_transitive(a: Seq<char>, b: Seq<char>, c: Seq<char>)
    requires
        text_le(a, b),
        text_le(b, c),
    ensures
        text_le(a, c),
{
    let x = vstd::utf8::encode_utf8(a);
    let y = vstd::utf8::encode_utf8(b);
    let z = vstd::utf8::encode_utf8(c);
    lemma_bytes_lt_total(x, y);
    lemma_bytes_lt_total(y, z);
    if bytes_lt(z, x) {
        lemma_bytes_lt_irreflexive(z);
        if bytes_lt(x, y) {
            lemma_bytes_lt_transitive(z, x, y);
        }
        if bytes_lt(y, z) && bytes_lt(x, y) {
            lemma_bytes_lt_transitive(x, y, z);
            lemma_bytes_lt_transitive(x, z, x);
            lemma_bytes_lt_irreflexive(x);
        }
        if bytes_lt(y, z) {
            lemma_bytes_lt_transitive(y, z, x);
        }
    }
}

/// A text that comes before a second comes before whatever the second does
/// not come behind.
pub proof fn lemma_text_lt_le(a: Seq<char>, b: Seq<char>, c: Seq<char>)
    requires
        text_lt(a, b),
        text_le(b, c),
    ensures
        text_lt(a, c),
{
    let x = vstd::utf8::encode_utf8(a);
    let y = vstd::utf8::encode_utf8(b);
    let z = vstd::utf8::encode_utf8(c);
    lemma_bytes_lt_total(y, z);
    if bytes_lt(y, z) {
        lemma_bytes_lt_transitive(x, y, z);
    }
}

/// A text that does not come behind a second comes before whatever the
/// second comes before.
pub proof fn lemma_text_le_lt(a: Seq<char>, b: Seq<char>, c: Seq<char>)
    requires
        text_le(a, b),
        text_lt(b, c),
    ensures
        text_lt(a, c),
{
    let x = vstd::utf8::encode_utf8(a);
    let y = vstd::utf8::encode_utf8(b);
    let z = vstd::utf8::encode_utf8(c);
    lemma_bytes_lt_total(x, y);
    if bytes_lt(x, y) {
        lemma_bytes_lt_transitive(x, y, z);
    }
}

/// The bytes of a text that is one text behind another are the bytes of the
/// first with the bytes of the second behind them.
pub proof fn lemma_encode_concat(a: Seq<char>, b: Seq<char>)
    ensures
        vstd::utf8::encode_utf8(a + b) == vstd::utf8::encode_utf8(a) + vstd::utf8::encode_utf8(b),
    decreases a.len(),
{
    if a.len() == 0 {
        assert(a + b =~= b);
        assert(vstd::utf8::encode_utf8(a) + vstd::utf8::encode_utf8(b) =~= vstd::utf8::encode_utf8(
            b,
        ));
    } else {
        assert((a + b).drop_first() =~= a.drop_first() + b);
        lemma_encode_concat(a.drop_first(), b);
        let head = vstd::utf8::encode_scalar(a[0] as u32);
        assert(head + (vstd::utf8::encode_utf8(a.drop_first()) + vstd::utf8::encode_utf8(b)) =~= (
        head + vstd::utf8::encode_utf8(a.drop_first())) + vstd::utf8::encode_utf8(b));
    }
}

/// Two texts of the same length in bytes keep their order when both get the
/// same text before them and the same text behind them.
pub proof fn lemma_text_lt_framed(before: Seq<char>, a: Seq<char>, b: Seq<char>, behind: Seq<char>)
    requires
        text_lt(a, b),
        vstd::utf8::encode_utf8(a).len() == vstd::utf8::encode_utf8(b).len(),
    ensures
        text_lt(before + a + behind, before + b + behind),
{
    let p = vstd::utf8::encode_utf8(before);
    let x = vstd::utf8::encode_utf8(a);
    let y = vstd::utf8::encode_utf8(b);
    let e = vstd::utf8::encode_utf8(behind);
    lemma_encode_concat(before, a);
    lemma_encode_concat(before + a, behind);
    lemma_encode_concat(before, b);
    lemma_encode_concat(before + b, behind);
    let k = choose|k: int| falls_short_at(x, y, k);
    assert(falls_short_at(p + x + e, p + y + e, p.len() + k));
}

/// Tells whether `a` comes before `b`.
pub fn comes_before(a: &str, b: &str) -> (r: bool)
    ensures
        r == text_lt(a@, b@),
{
    let x = a.as_bytes();
    let y = b.as_bytes();
    let mut i: usize = 0;
    while i < x.len() && i < y.len()
        invariant
            i <= x.len(),
            i <= y.len(),
            x@ == vstd::utf8::encode_utf8(a@),
            y@ == vstd::utf8::encode_utf8(b@),
            forall|j: int| 0 <= j < i ==> x@[j] == y@[j],
        decreases x.len() - i,
    {
        if x[i] != y[i] {
            let r = x[i] < y[i];
            proof {
                if r {
                    assert(falls_short_at(x@, y@, i as int));
                } else {
                    assert(falls_short_at(y@, x@, i as int));
                    if bytes_lt(x@, y@) {
                        lemma_bytes_lt_transitive(x@, y@, x@);
                        lemma_bytes_lt_irreflexive(x@);
                    }
                }
            }
            return r;
        }
        i = i + 1;
    }
    proof {
        if x.len() < y.len() {
            assert(falls_short_at(x@, y@, i as int));
        } else {
            assert forall|k: int| !falls_short_at(x@, y@, k) by {
                if falls_short_at(x@, y@, k) {
                    assert(k < i);
                }
            }
        }
    }
    x.len() < y.len()
}

} // verus!
