use vstd::prelude::*;
use vstd::string::StringSliceAdditionalSpecFns;
use vstd::utf8::encode_utf8;

verus! {

/// The file-name suffix of a store: `.store`.
pub open spec fn store_suffix() -> Seq<u8> {
    seq![46u8, 115u8, 116u8, 111u8, 114u8, 101u8]
}

pub open spec fn is_digit(b: u8) -> bool {
    48 <= b <= 57
}

/// The number that the decimal digits `s` spell.
pub open spec fn decimal(s: Seq<u8>) -> nat
    decreases s.len(),
{
    if s.len() == 0 {
        0
    } else {
        decimal(s.drop_last()) * 10 + (s.last() - 48) as nat
    }
}

/// `name` is `<N>.store` with `N` a non-empty run of decimal digits without a leading zero
/// (but `0` itself); then `N` is the returned part.
pub open spec fn store_name_digits(name: Seq<u8>) -> Option<Seq<u8>> {
    if name.len() > 6 && name.subrange(name.len() - 6, name.len() as int) == store_suffix()
        && forall|i: int| 0 <= i < name.len() - 6 ==> is_digit(#[trigger] name[i])
        && (name.len() == 7 || name[0] != 48u8) {
        Some(name.subrange(0, name.len() - 6))
    } else {
        None
    }
}

/// The base offset named by a store file name, when there is one that fits in 64 bits.
pub open spec fn store_name_base(name: Seq<u8>) -> Option<u64> {
    match store_name_digits(name) {
        Some(d) => if decimal(d) <= u64::MAX {
            Some(decimal(d) as u64)
        } else {
            None
        },
        None => None,
    }
}

proof fn lemma_decimal_grows(s: Seq<u8>, k: int)
    requires
        0 <= k <= s.len(),
        forall|i: int| 0 <= i < s.len() ==> is_digit(#[trigger] s[i]),
    ensures
        decimal(s.subrange(0, k)) <= decimal(s),
    decreases s.len() - k,
{
    if k < s.len() {
        lemma_decimal_grows(s, k + 1);
        let t = s.subrange(0, k + 1);
        assert(t.drop_last() == s.subrange(0, k));
    } else {
        assert(s.subrange(0, k) == s);
    }
}

/// The base offset of a segment whose store file is called `name` (`<N>.store`), or `None`
/// when `name` is no store file name (`N` written with a leading zero is none) or `N` does
/// not fit in 64 bits.
pub fn parse_store_name(name: &str) -> (r: Option<u64>)
    ensures
        r == store_name_base(name.spec_bytes()),
        name.spec_bytes() == encode_utf8(name@),
{
    let b = name.as_bytes();
    let n = b.len();
    if n <= 6 || b[n - 6] != 46u8 || b[n - 5] != 115u8 || b[n - 4] != 116u8 || b[n - 3] != 111u8
        || b[n - 2] != 114u8 || b[n - 1] != 101u8 {
        proof {
            if n > 6 && b@.subrange(n - 6, n as int) == store_suffix() {
                let t = b@.subrange(n - 6, n as int);
                assert(b@[n - 6] == t[0] && b@[n - 5] == t[1] && b@[n - 4] == t[2]);
                assert(b@[n - 3] == t[3] && b@[n - 2] == t[4] && b@[n - 1] == t[5]);
            }
        }
        return None;
    }
    assert(b@.subrange(n - 6, n as int) =~= store_suffix());
    let m = n - 6;
    if m > 1 && b[0] == 48u8 {
        return None;
    }
    let ghost digits = b@.subrange(0, m as int);
    let mut v: u64 = 0;
    let mut i: usize = 0;
    while i < m
        invariant
            m == n - 6,
            n == b@.len(),
            n > 6,
            b@ == name.spec_bytes(),
            m == 1 || b@[0] != 48u8,
            b@.subrange(n - 6, n as int) == store_suffix(),
            digits == b@.subrange(0, m as int),
            i <= m,
            forall|k: int| 0 <= k < i ==> is_digit(#[trigger] b@[k]),
            v == decimal(b@.subrange(0, i as int)),
        decreases m - i,
    {
        let c = b[i];
        if c < 48u8 || c > 57u8 {
            assert(!is_digit(b@[i as int]));
            assert(store_name_digits(b@) is None);
            return None;
        }
        let d = (c - 48u8) as u64;
        proof {
            let t = b@.subrange(0, i + 1);
            assert(t.drop_last() == b@.subrange(0, i as int));
        }
        if v > (u64::MAX - d) / 10 {
            proof {
                assert(v * 10 + d > u64::MAX) by (nonlinear_arith)
                    requires
                        v > (u64::MAX - d) / 10,
                        d <= 9,
                ;
                assert forall|k: int| 0 <= k < i + 1 implies is_digit(#[trigger] b@[k]) by {}
                let t = b@.subrange(0, i + 1);
                assert(decimal(t) == v * 10 + d);
                // the whole name may still hold non-digits: then it is no store name anyway
                if forall|k: int| 0 <= k < m ==> is_digit(#[trigger] b@[k]) {
                    assert forall|k: int| 0 <= k < digits.len() implies is_digit(
                        #[trigger] digits[k],
                    ) by {
                        assert(digits[k] == b@[k]);
                    }
                    lemma_decimal_grows(digits, i + 1);
                    assert(digits.subrange(0, i + 1) == t);
                    assert(store_name_digits(b@) == Some(digits));
                } else {
                    assert(store_name_digits(b@) is None);
                }
                assert(store_name_base(b@) is None);
            }
            return None;
        }
        v = v * 10 + d;
        i = i + 1;
    }
    assert(b@.subrange(0, i as int) == digits);
    assert(store_name_digits(b@) == Some(digits));
    Some(v)
}

/// Strictly ascending.
pub open spec fn ascending(s: Seq<u64>) -> bool {
    forall|i: int, j: int| 0 <= i < j < s.len() ==> s[i] < s[j]
}

/// The base offsets of the segments to open, in ascending order without repeats: those that
/// the names of store files in the log directory give, or `initial_offset` alone when no
/// name is a store file name.
pub fn base_offsets(names: &Vec<String>, initial_offset: u64) -> (r: Vec<u64>)
    ensures
        ascending(r@),
        (forall|k: int| 0 <= k < names@.len() ==> store_name_base(#[trigger] encode_utf8(names@[k]@)) is None) ==> r@ == seq![initial_offset],
        (exists|k: int| 0 <= k < names@.len() && store_name_base(#[trigger] encode_utf8(names@[k]@)) is Some) ==> forall|x: u64| r@.contains(x) <==> exists|k: int| 0 <= k < names@.len() && store_name_base(#[trigger] encode_utf8(names@[k]@)) == Some(x),
{
    let mut out: Vec<u64> = Vec::new();
    let mut k: usize = 0;
    while k < names.len()
        invariant
            k <= names@.len(),
            ascending(out@),
            forall|x: u64| out@.contains(x) <==> exists|j: int| 0 <= j < k && store_name_base(#[trigger] encode_utf8(names@[j]@)) == Some(x),
        decreases names@.len() - k,
    {
        match parse_store_name(names[k].as_str()) {
            Some(b) => {
                insert_sorted(&mut out, b);
            },
            None => {},
        }
        proof {
            assert forall|x: u64| out@.contains(x) implies exists|j: int| 0 <= j < k + 1 && store_name_base(#[trigger] encode_utf8(names@[j]@)) == Some(x) by {
                if !(exists|j: int| 0 <= j < k && store_name_base(#[trigger] encode_utf8(names@[j]@)) == Some(x)) {
                    assert(store_name_base(encode_utf8(names@[k as int]@)) == Some(x));
                }
            }
            assert forall|x: u64| (exists|j: int| 0 <= j < k + 1 && store_name_base(#[trigger] encode_utf8(names@[j]@)) == Some(x)) implies out@.contains(x) by {
                let j = choose|j: int| 0 <= j < k + 1 && store_name_base(#[trigger] encode_utf8(names@[j]@)) == Some(x);
                if j < k {
                    assert(exists|j: int| 0 <= j < k && store_name_base(#[trigger] encode_utf8(names@[j]@)) == Some(x));
                }
            }
        }
        k = k + 1;
    }
    proof {
        if out.len() > 0 {
            assert(out@.contains(out@[0]));
        }
    }
    if out.len() == 0 {
        proof {
            if exists|k: int| 0 <= k < names@.len() && store_name_base(#[trigger] encode_utf8(names@[k]@)) is Some {
                let k = choose|k: int| 0 <= k < names@.len() && store_name_base(#[trigger] encode_utf8(names@[k]@)) is Some;
                let x = store_name_base(encode_utf8(names@[k]@))->Some_0;
                assert(out@.contains(x));
            }
        }
        out.push(initial_offset);
        assert(out@ == seq![initial_offset]);
    }
    out
}

/// Inserts `x` into the ascending `v` unless it is there already.
fn insert_sorted(v: &mut Vec<u64>, x: u64)
    requires
        ascending(old(v)@),
    ensures
        ascending(final(v)@),
        forall|y: u64| final(v)@.contains(y) <==> (old(v)@.contains(y) || y == x),
{
    let mut i: usize = 0;
    while i < v.len() && v[i] < x
        invariant
            i <= v@.len(),
            v@ == old(v)@,
            forall|j: int| 0 <= j < i ==> v@[j] < x,
        decreases v@.len() - i,
    {
        i = i + 1;
    }
    if i < v.len() && v[i] == x {
        return;
    }
    v.insert(i, x);
    proof {
        assert(v@ == old(v)@.insert(i as int, x));
        assert forall|y: u64| v@.contains(y) <==> (old(v)@.contains(y) || y == x) by {
            if old(v)@.contains(y) {
                let j = choose|j: int| 0 <= j < old(v)@.len() && old(v)@[j] == y;
                if j < i {
                    assert(v@[j] == y);
                } else {
                    assert(v@[j + 1] == y);
                }
            }
            if v@.contains(y) {
                let j = choose|j: int| 0 <= j < v@.len() && v@[j] == y;
                if j < i {
                    assert(old(v)@[j] == y);
                } else if j > i {
                    assert(old(v)@[j - 1] == y);
                }
            }
            if y == x {
                assert(v@[i as int] == x);
            }
        }
    }
}

} // verus!
