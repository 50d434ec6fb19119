use vstd::prelude::*;

verus! {

/// The decimal digits of `n`, most significant first, in ASCII.
pub open spec fn decimal(n: nat) -> Seq<u8>
    decreases n,
{
    if n < 10 {
        seq![(48 + n) as u8]
    } else {
        decimal(n / 10) + seq![(48 + n % 10) as u8]
    }
}

/// Appends all of `src` to `out`.
pub fn append(out: &mut Vec<u8>, src: &Vec<u8>)
    ensures
        final(out)@ == old(out)@ + src@,
{
    let ghost start = out@;
    let mut i: usize = 0;
    while i < src.len()
        invariant
            i <= src@.len(),
            out@ == start + src@.subrange(0, i as int),
        decreases src@.len() - i,
    {
        out.push(src[i]);
        assert(src@.subrange(0, i as int + 1) =~= src@.subrange(0, i as int).push(src@[i as int]));
        i = i + 1;
    }
    assert(src@.subrange(0, src@.len() as int) =~= src@);
}

/// Appends the decimal digits of `n` to `out`.
pub fn push_decimal(out: &mut Vec<u8>, n: u64)
    ensures
        final(out)@ == old(out)@ + decimal(n as nat),
    decreases n,
{
    if n < 10 {
        out.push(48u8 + n as u8);
        assert(final(out)@ =~= old(out)@ + decimal(n as nat));
    } else {
        push_decimal(out, n / 10);
        out.push(48u8 + (n % 10) as u8);
        assert(final(out)@ =~= old(out)@ + decimal(n as nat));
    }
}

/// Whether two byte strings are equal.
pub fn bytes_eq(a: &Vec<u8>, b: &Vec<u8>) -> (r: bool)
    ensures
        r == (a@ == b@),
{
    if a.len() != b.len() {
        return false;
    }
    let mut i: usize = 0;
    while i < a.len()
        invariant
            a@.len() == b@.len(),
            i <= a@.len(),
            forall|j: int| 0 <= j < i ==> a@[j] == b@[j],
        decreases a@.len() - i,
    {
        if a[i] != b[i] {
            return false;
        }
        i = i + 1;
    }
    assert(a@ =~= b@);
    true
}

/// A fresh copy of `v`.
pub fn copy_bytes(v: &Vec<u8>) -> (r: Vec<u8>)
    ensures
        r@ == v@,
{
    let mut r: Vec<u8> = Vec::new();
    append(&mut r, v);
    assert(r@ =~= v@);
    r
}

} // verus!

verus! {

/// Whether `line` begins with `pat`.
pub fn starts_with(line: &Vec<u8>, pat: &Vec<u8>) -> (r: bool)
    ensures
        r == (pat@.len() <= line@.len() && line@.subrange(0, pat@.len() as int) == pat@),
{
    if pat.len() > line.len() {
        return false;
    }
    let mut i: usize = 0;
    while i < pat.len()
        invariant
            pat@.len() <= line@.len(),
            i <= pat@.len(),
            forall|j: int| 0 <= j < i ==> line@[j] == pat@[j],
        decreases pat@.len() - i,
    {
        if line[i] != pat[i] {
            assert(line@.subrange(0, pat@.len() as int)[i as int] != pat@[i as int]);
            return false;
        }
        i = i + 1;
    }
    assert(line@.subrange(0, pat@.len() as int) =~= pat@);
    true
}

/// The bytes of `v` from index `k` on.
pub fn tail(v: &Vec<u8>, k: usize) -> (r: Vec<u8>)
    requires
        k <= v@.len(),
    ensures
        r@ == v@.subrange(k as int, v@.len() as int),
{
    let mut r: Vec<u8> = Vec::new();
    let mut i: usize = k;
    while i < v.len()
        invariant
            k <= i <= v@.len(),
            r@ == v@.subrange(k as int, i as int),
        decreases v@.len() - i,
    {
        r.push(v[i]);
        assert(v@.subrange(k as int, i as int + 1) =~= v@.subrange(k as int, i as int).push(v@[i as int]));
        i = i + 1;
    }
    r
}

pub open spec fn is_digit(b: u8) -> bool {
    48 <= b <= 57
}

/// The number that a run of ASCII digits denotes.
pub open spec fn digits_value(s: Seq<u8>) -> nat
    decreases s.len(),
{
    if s.len() == 0 {
        0
    } else {
        digits_value(s.drop_last()) * 10 + (s.last() - 48) as nat
    }
}

/// `v[pos..end]` is a non-empty maximal run of digits.
pub open spec fn digit_run(v: Seq<u8>, pos: int, end: int) -> bool {
    &&& 0 <= pos < end <= v.len()
    &&& forall|j: int| pos <= j < end ==> is_digit(#[trigger] v[j])
    &&& end == v.len() || !is_digit(v[end])
}

/// Digits further right never make a number smaller.
pub proof fn lemma_digits_prefix(s: Seq<u8>, k: int)
    requires
        0 <= k <= s.len(),
    ensures
        digits_value(s.subrange(0, k)) <= digits_value(s),
    decreases s.len(),
{
    if k < s.len() {
        lemma_digits_prefix(s.drop_last(), k);
        assert(s.drop_last().subrange(0, k) =~= s.subrange(0, k));
    } else {
        assert(s.subrange(0, k) =~= s);
    }
}

/// The decimal form of `n` is a run of digits that reads back as `n`.
pub proof fn lemma_decimal(n: nat)
    ensures
        decimal(n).len() >= 1,
        forall|j: int| 0 <= j < decimal(n).len() ==> is_digit(#[trigger] decimal(n)[j]),
        digits_value(decimal(n)) == n,
    decreases n,
{
    let s = decimal(n);
    if n < 10 {
        assert(s.drop_last() =~= Seq::<u8>::empty());
        assert(s.last() == (48 + n) as u8);
        assert(digits_value(s) == digits_value(s.drop_last()) * 10 + (s.last() - 48) as nat);
    } else {
        lemma_decimal(n / 10);
        assert(s.drop_last() =~= decimal(n / 10));
        assert(s.last() == (48 + n % 10) as u8);
        assert(digits_value(s) == digits_value(s.drop_last()) * 10 + (s.last() - 48) as nat);
        assert((n / 10) * 10 + n % 10 == n);
        assert forall|j: int| 0 <= j < s.len() implies is_digit(#[trigger] s[j]) by {
            if j < s.len() - 1 {
                assert(s[j] == decimal(n / 10)[j]);
            }
        }
    }
}

/// Reads the run of digits that starts at `pos`: its value and the index
/// after it. None when there is no digit there or the value exceeds `u64`.
pub fn read_number(v: &Vec<u8>, pos: usize) -> (r: Option<(u64, usize)>)
    ensures
        r matches Some((n, end)) ==> {
            &&& pos < end <= v@.len()
            &&& forall|j: int| pos <= j < end ==> is_digit(#[trigger] v@[j])
            &&& end == v@.len() || !is_digit(v@[end as int])
            &&& n as nat == digits_value(v@.subrange(pos as int, end as int))
        },
        forall|end: int| #[trigger] digit_run(v@, pos as int, end) && digits_value(v@.subrange(pos as int, end))
            <= u64::MAX ==> r == Some((digits_value(v@.subrange(pos as int, end)) as u64, end as usize)),
{
    if pos >= v.len() || v[pos] < 48 || v[pos] > 57 {
        return None;
    }
    let mut n: u64 = 0;
    let mut i: usize = pos;
    while i < v.len() && 48 <= v[i] && v[i] <= 57
        invariant
            pos <= i <= v@.len(),
            forall|j: int| pos <= j < i ==> is_digit(#[trigger] v@[j]),
            n as nat == digits_value(v@.subrange(pos as int, i as int)),
            forall|end: int| #[trigger] digit_run(v@, pos as int, end) ==> i <= end,
        decreases v@.len() - i,
    {
        let d = (v[i] - 48) as u64;
        let ghost s = v@.subrange(pos as int, i as int + 1);
        assert(s.drop_last() =~= v@.subrange(pos as int, i as int));
        if n > (18446744073709551615u64 - d) / 10 {
            assert(digits_value(s) > u64::MAX) by (nonlinear_arith)
                requires
                    digits_value(s) == n * 10 + d,
                    n > (18446744073709551615u64 - d) / 10,
                    d <= 9,
            ;
            proof {
                assert forall|end: int| #[trigger] digit_run(v@, pos as int, end) implies digits_value(
                    v@.subrange(pos as int, end),
                ) > u64::MAX by {
                    let whole = v@.subrange(pos as int, end);
                    assert(i < end);
                    lemma_digits_prefix(whole, i + 1 - pos);
                    assert(whole.subrange(0, i + 1 - pos) =~= s);
                }
            }
            return None;
        }
        assert(n * 10 + d <= u64::MAX) by (nonlinear_arith)
            requires
                n <= (18446744073709551615u64 - d) / 10,
                d <= 9,
        ;
        n = n * 10 + d;
        i = i + 1;
        proof {
            assert forall|end: int| #[trigger] digit_run(v@, pos as int, end) implies i <= end by {
                if end == i - 1 {
                    assert(is_digit(v@[end]));
                }
            }
        }
    }
    proof {
        assert forall|end: int| #[trigger] digit_run(v@, pos as int, end) implies end == i by {
            if i < end {
                assert(is_digit(v@[i as int]));
            }
        }
    }
    Some((n, i))
}

} // verus!

verus! {

/// Lines, each followed by a newline.
pub open spec fn joined(ls: Seq<Seq<u8>>) -> Seq<u8>
    decreases ls.len(),
{
    if ls.len() == 0 {
        Seq::empty()
    } else {
        ls[0] + seq![10u8] + joined(ls.drop_first())
    }
}

pub proof fn lemma_joined_push(ls: Seq<Seq<u8>>, l: Seq<u8>)
    ensures
        joined(ls.push(l)) == joined(ls) + l + seq![10u8],
    decreases ls.len(),
{
    if ls.len() == 0 {
        assert(ls.push(l).drop_first() =~= Seq::<Seq<u8>>::empty());
        assert(ls.push(l)[0] == l);
        assert(joined(ls.push(l).drop_first()) == Seq::<u8>::empty());
        assert(joined(ls.push(l)) =~= joined(ls) + l + seq![10u8]);
    } else {
        lemma_joined_push(ls.drop_first(), l);
        assert(ls.push(l).drop_first() =~= ls.drop_first().push(l));
        assert(ls.push(l)[0] == ls[0]);
        assert(joined(ls.push(l)) =~= joined(ls) + l + seq![10u8]);
    }
}

/// Lines without newlines are told apart by their joined bytes.
pub proof fn lemma_joined_unique(a: Seq<Seq<u8>>, b: Seq<Seq<u8>>)
    requires
        joined(a) == joined(b),
        forall|i: int| 0 <= i < a.len() ==> !(#[trigger] a[i]).contains(10u8),
        forall|i: int| 0 <= i < b.len() ==> !(#[trigger] b[i]).contains(10u8),
    ensures
        a == b,
    decreases a.len(),
{
    if a.len() == 0 {
        if b.len() > 0 {
            assert(joined(b).len() > 0);
        }
        assert(a =~= b);
    } else {
        if b.len() == 0 {
            assert(joined(a).len() > 0);
        }
        let (x, y) = (a[0], b[0]);
        let ja = joined(a);
        assert(!a[0].contains(10u8));
        assert(!b[0].contains(10u8));
        if x.len() < y.len() {
            assert(ja[x.len() as int] == 10u8);
            assert(y[x.len() as int] == ja[x.len() as int]);
            assert(y.contains(10u8));
        } else if y.len() < x.len() {
            assert(ja[y.len() as int] == 10u8);
            assert(x[y.len() as int] == ja[y.len() as int]);
            assert(x.contains(10u8));
        }
        assert(x =~= ja.subrange(0, x.len() as int));
        assert(y =~= ja.subrange(0, x.len() as int));
        assert(joined(a.drop_first()) =~= ja.subrange(x.len() as int + 1, ja.len() as int));
        assert(joined(b.drop_first()) =~= ja.subrange(x.len() as int + 1, ja.len() as int));
        assert forall|i: int| 0 <= i < a.drop_first().len() implies !(#[trigger] a.drop_first()[i]).contains(10u8) by {
            assert(a.drop_first()[i] == a[i + 1]);
        }
        assert forall|i: int| 0 <= i < b.drop_first().len() implies !(#[trigger] b.drop_first()[i]).contains(10u8) by {
            assert(b.drop_first()[i] == b[i + 1]);
        }
        lemma_joined_unique(a.drop_first(), b.drop_first());
        assert forall|i: int| 0 <= i < a.len() implies a[i] == b[i] by {
            if i > 0 {
                assert(a[i] == a.drop_first()[i - 1]);
                assert(b[i] == b.drop_first()[i - 1]);
            }
        }
        assert(a =~= b);
    }
}

} // verus!
