use vstd::prelude::*;

verus! {

// The engine's deterministic wire form. Every multi-byte integer is eight
// bytes little endian; a byte string is its length followed by its bytes; a
// list of byte strings is its count followed by the encoded strings.

pub open spec fn u64_le(x: u64) -> Seq<u8> {
    seq![
        (x & 0xff) as u8,
        ((x >> 8) & 0xff) as u8,
        ((x >> 16) & 0xff) as u8,
        ((x >> 24) & 0xff) as u8,
        ((x >> 32) & 0xff) as u8,
        ((x >> 40) & 0xff) as u8,
        ((x >> 48) & 0xff) as u8,
        ((x >> 56) & 0xff) as u8,
    ]
}

pub open spec fn u64_from_le(s: Seq<u8>) -> u64
    recommends
        s.len() == 8,
{
    (s[0] as u64) | ((s[1] as u64) << 8) | ((s[2] as u64) << 16) | ((s[3] as u64) << 24)
        | ((s[4] as u64) << 32) | ((s[5] as u64) << 40) | ((s[6] as u64) << 48)
        | ((s[7] as u64) << 56)
}

pub open spec fn enc_bytes(b: Seq<u8>) -> Seq<u8> {
    u64_le(b.len() as u64) + b
}

pub open spec fn enc_bytes_seq(l: Seq<Seq<u8>>) -> Seq<u8>
    decreases l.len(),
{
    if l.len() == 0 {
        Seq::empty()
    } else {
        enc_bytes(l[0]) + enc_bytes_seq(l.drop_first())
    }
}

pub open spec fn enc_bytes_list(l: Seq<Seq<u8>>) -> Seq<u8> {
    u64_le(l.len() as u64) + enc_bytes_seq(l)
}

pub open spec fn dec_u64(s: Seq<u8>, i: int) -> Option<(u64, int)> {
    if 0 <= i && i + 8 <= s.len() {
        Some((u64_from_le(s.subrange(i, i + 8)), i + 8))
    } else {
        None
    }
}

pub open spec fn dec_bytes(s: Seq<u8>, i: int) -> Option<(Seq<u8>, int)> {
    match dec_u64(s, i) {
        None => None,
        Some((n, j)) => if j + n <= s.len() {
            Some((s.subrange(j, j + n), j + n))
        } else {
            None
        },
    }
}

pub open spec fn dec_bytes_list_rec(s: Seq<u8>, i: int, count: nat) -> Option<(Seq<Seq<u8>>, int)>
    decreases count,
{
    if count == 0 {
        Some((Seq::empty(), i))
    } else {
        match dec_bytes(s, i) {
            None => None,
            Some((b, j)) => match dec_bytes_list_rec(s, j, (count - 1) as nat) {
                None => None,
                Some((l, k)) => Some((seq![b] + l, k)),
            },
        }
    }
}

pub open spec fn dec_bytes_list(s: Seq<u8>, i: int) -> Option<(Seq<Seq<u8>>, int)> {
    match dec_u64(s, i) {
        None => None,
        Some((n, j)) => dec_bytes_list_rec(s, j, n as nat),
    }
}

pub proof fn lemma_u64_le_roundtrip(x: u64)
    ensures
        u64_from_le(u64_le(x)) == x,
{
    assert(((x & 0xff) as u8 as u64) | ((((x >> 8) & 0xff) as u8 as u64) << 8)
        | ((((x >> 16) & 0xff) as u8 as u64) << 16) | ((((x >> 24) & 0xff) as u8 as u64) << 24)
        | ((((x >> 32) & 0xff) as u8 as u64) << 32) | ((((x >> 40) & 0xff) as u8 as u64) << 40)
        | ((((x >> 48) & 0xff) as u8 as u64) << 48) | ((((x >> 56) & 0xff) as u8 as u64) << 56)
        == x) by (bit_vector);
}

/// Reading eight bytes at the position where an integer was written yields
/// that integer back.
pub proof fn lemma_dec_u64(s: Seq<u8>, i: int, x: u64)
    requires
        0 <= i,
        i + 8 <= s.len(),
        s.subrange(i, i + 8) == u64_le(x),
    ensures
        dec_u64(s, i) == Some((x, i + 8)),
{
    lemma_u64_le_roundtrip(x);
}

/// Reading a byte string at the position where one was written yields it back.
pub proof fn lemma_dec_bytes(s: Seq<u8>, i: int, b: Seq<u8>)
    requires
        0 <= i,
        b.len() <= u64::MAX,
        i + 8 + b.len() <= s.len(),
        s.subrange(i, i + 8 + b.len()) == enc_bytes(b),
    ensures
        dec_bytes(s, i) == Some((b, i + 8 + b.len())),
{
    let n = b.len() as u64;
    assert(s.subrange(i, i + 8) =~= enc_bytes(b).subrange(0, 8));
    assert(enc_bytes(b).subrange(0, 8) =~= u64_le(n));
    lemma_dec_u64(s, i, n);
    assert(s.subrange(i + 8, i + 8 + b.len()) =~= enc_bytes(b).subrange(8, 8 + b.len() as int));
    assert(enc_bytes(b).subrange(8, 8 + b.len() as int) =~= b);
}

/// Reading `count` byte strings at the position where they were written
/// yields them back.
pub proof fn lemma_dec_bytes_seq(s: Seq<u8>, i: int, l: Seq<Seq<u8>>)
    requires
        0 <= i,
        i + enc_bytes_seq(l).len() <= s.len(),
        forall|k: int| 0 <= k < l.len() ==> #[trigger] l[k].len() <= u64::MAX,
        s.subrange(i, i + enc_bytes_seq(l).len()) == enc_bytes_seq(l),
    ensures
        dec_bytes_list_rec(s, i, l.len()) == Some((l, i + enc_bytes_seq(l).len())),
    decreases l.len(),
{
    if l.len() == 0 {
        assert(dec_bytes_list_rec(s, i, 0) == Some((Seq::<Seq<u8>>::empty(), i)));
        assert(l =~= Seq::<Seq<u8>>::empty());
    } else {
        let b = l[0];
        let rest = l.drop_first();
        let head_len = 8 + b.len() as int;
        assert(enc_bytes_seq(l) == enc_bytes(b) + enc_bytes_seq(rest));
        assert(enc_bytes(b).len() == head_len);
        assert(s.subrange(i, i + head_len) =~= enc_bytes(b));
        lemma_dec_bytes(s, i, b);
        assert forall|k: int| 0 <= k < enc_bytes_seq(rest).len() implies s.subrange(
            i + head_len,
            i + head_len + enc_bytes_seq(rest).len(),
        )[k] == enc_bytes_seq(rest)[k] by {
            assert(s.subrange(i, i + enc_bytes_seq(l).len())[head_len + k] == enc_bytes_seq(
                l,
            )[head_len + k]);
        }
        assert(s.subrange(i + head_len, i + head_len + enc_bytes_seq(rest).len())
            =~= enc_bytes_seq(rest));
        lemma_dec_bytes_seq(s, i + head_len, rest);
        assert(seq![b] + rest =~= l);
    }
}

/// Reading a list of byte strings at the position where one was written
/// yields it back.
pub proof fn lemma_dec_bytes_list(s: Seq<u8>, i: int, l: Seq<Seq<u8>>)
    requires
        0 <= i,
        l.len() <= u64::MAX,
        i + enc_bytes_list(l).len() <= s.len(),
        forall|k: int| 0 <= k < l.len() ==> #[trigger] l[k].len() <= u64::MAX,
        s.subrange(i, i + enc_bytes_list(l).len()) == enc_bytes_list(l),
    ensures
        dec_bytes_list(s, i) == Some((l, i + enc_bytes_list(l).len())),
{
    let n = l.len() as u64;
    assert(s.subrange(i, i + 8) =~= u64_le(n));
    lemma_dec_u64(s, i, n);
    assert forall|k: int| 0 <= k < enc_bytes_seq(l).len() implies s.subrange(
        i + 8,
        i + 8 + enc_bytes_seq(l).len(),
    )[k] == enc_bytes_seq(l)[k] by {
        assert(s.subrange(i, i + enc_bytes_list(l).len())[8 + k] == enc_bytes_list(l)[8 + k]);
    }
    assert(s.subrange(i + 8, i + 8 + enc_bytes_seq(l).len()) =~= enc_bytes_seq(l));
    lemma_dec_bytes_seq(s, i + 8, l);
}

// ---- executable encoders ----

pub fn push_u64_le(out: &mut Vec<u8>, x: u64)
    ensures
        final(out)@ == old(out)@ + u64_le(x),
{
    out.push((x & 0xff) as u8);
    out.push(((x >> 8) & 0xff) as u8);
    out.push(((x >> 16) & 0xff) as u8);
    out.push(((x >> 24) & 0xff) as u8);
    out.push(((x >> 32) & 0xff) as u8);
    out.push(((x >> 40) & 0xff) as u8);
    out.push(((x >> 48) & 0xff) as u8);
    out.push(((x >> 56) & 0xff) as u8);
    proof {
        assert(out@ =~= old(out)@ + u64_le(x));
    }
}

pub fn push_bytes(out: &mut Vec<u8>, b: &Vec<u8>)
    ensures
        final(out)@ == old(out)@ + enc_bytes(b@),
{
    push_u64_le(out, b.len() as u64);
    let ghost mid = out@;
    let mut k: usize = 0;
    while k < b.len()
        invariant
            k <= b.len(),
            out@ == mid + b@.subrange(0, k as int),
        decreases b.len() - k,
    {
        out.push(b[k]);
        k = k + 1;
        proof {
            assert(out@ =~= mid + b@.subrange(0, k as int));
        }
    }
    proof {
        assert(b@.subrange(0, b@.len() as int) =~= b@);
        assert(out@ =~= old(out)@ + enc_bytes(b@));
    }
}

pub fn push_bytes_list(out: &mut Vec<u8>, l: &Vec<Vec<u8>>)
    ensures
        final(out)@ == old(out)@ + enc_bytes_list(l.deep_view()),
{
    push_u64_le(out, l.len() as u64);
    let ghost mid = out@;
    let mut k: usize = 0;
    while k < l.len()
        invariant
            k <= l.len(),
            out@ == mid + enc_bytes_seq(l.deep_view().subrange(0, k as int)),
        decreases l.len() - k,
    {
        proof {
            lemma_enc_bytes_seq_snoc(l.deep_view().subrange(0, k as int), l.deep_view()[k as int]);
            assert(l.deep_view().subrange(0, k as int).push(l.deep_view()[k as int])
                =~= l.deep_view().subrange(0, k as int + 1));
            assert(l.deep_view()[k as int] =~= l@[k as int]@);
        }
        push_bytes(out, &l[k]);
        k = k + 1;
    }
    proof {
        assert(l.deep_view().subrange(0, l.deep_view().len() as int) =~= l.deep_view());
        assert(out@ =~= old(out)@ + enc_bytes_list(l.deep_view()));
    }
}

/// Appending one more string to a list extends its encoding at the tail.
pub proof fn lemma_enc_bytes_seq_snoc(l: Seq<Seq<u8>>, b: Seq<u8>)
    ensures
        enc_bytes_seq(l.push(b)) == enc_bytes_seq(l) + enc_bytes(b),
    decreases l.len(),
{
    if l.len() == 0 {
        assert(l.push(b)[0] == b);
        assert(l.push(b).drop_first() =~= Seq::<Seq<u8>>::empty());
        assert(enc_bytes_seq(Seq::<Seq<u8>>::empty()) =~= Seq::<u8>::empty());
        assert(enc_bytes_seq(l.push(b)) == enc_bytes(b) + enc_bytes_seq(l.push(b).drop_first()));
        assert(enc_bytes_seq(l.push(b)) =~= enc_bytes_seq(l) + enc_bytes(b));
    } else {
        assert(l.push(b)[0] == l[0]);
        assert(l.push(b).drop_first() =~= l.drop_first().push(b));
        lemma_enc_bytes_seq_snoc(l.drop_first(), b);
        assert(enc_bytes_seq(l.push(b)) == enc_bytes(l[0]) + enc_bytes_seq(
            l.push(b).drop_first(),
        ));
        assert(enc_bytes_seq(l.push(b).drop_first()) == enc_bytes_seq(l.drop_first().push(b)));
        assert(enc_bytes_seq(l.push(b)) =~= enc_bytes_seq(l) + enc_bytes(b));
    }
}

// ---- executable decoders ----

pub fn read_u64_le(s: &Vec<u8>, i: usize) -> (r: Option<(u64, usize)>)
    ensures
        r matches Some((x, j)) ==> dec_u64(s@, i as int) == Some((x, j as int)),
        r is None ==> dec_u64(s@, i as int) is None,
{
    if i <= s.len() && s.len() - i >= 8 {
        let x: u64 = (s[i] as u64) | ((s[i + 1] as u64) << 8) | ((s[i + 2] as u64) << 16)
            | ((s[i + 3] as u64) << 24) | ((s[i + 4] as u64) << 32) | ((s[i + 5] as u64) << 40)
            | ((s[i + 6] as u64) << 48) | ((s[i + 7] as u64) << 56);
        proof {
            let sub = s@.subrange(i as int, i as int + 8);
            assert(sub[0] == s@[i as int]);
            assert(sub[1] == s@[i as int + 1]);
            assert(sub[2] == s@[i as int + 2]);
            assert(sub[3] == s@[i as int + 3]);
            assert(sub[4] == s@[i as int + 4]);
            assert(sub[5] == s@[i as int + 5]);
            assert(sub[6] == s@[i as int + 6]);
            assert(sub[7] == s@[i as int + 7]);
        }
        Some((x, i + 8))
    } else {
        None
    }
}

pub fn read_bytes(s: &Vec<u8>, i: usize) -> (r: Option<(Vec<u8>, usize)>)
    ensures
        r matches Some((b, j)) ==> dec_bytes(s@, i as int) == Some((b@, j as int)),
        r is None ==> dec_bytes(s@, i as int) is None,
{
    match read_u64_le(s, i) {
        None => None,
        Some((n, j)) => {
            let slen: usize = s.len();
            if n <= (slen - j) as u64 {
                let n_us = n as usize;
                proof {
                    assert(n_us as int == n as int);
                    assert(j + n_us <= slen);
                }
                let mut b: Vec<u8> = Vec::new();
                let mut k: usize = 0;
                while k < n_us
                    invariant
                        k <= n_us,
                        j + n_us <= slen,
                        slen == s@.len(),
                        b@ == s@.subrange(j as int, j as int + k as int),
                    decreases n_us - k,
                {
                    b.push(s[j + k]);
                    k = k + 1;
                    proof {
                        assert(b@ =~= s@.subrange(j as int, j as int + k as int));
                    }
                }
                Some((b, j + n_us))
            } else {
                None
            }
        },
    }
}

pub fn read_bytes_list(s: &Vec<u8>, i: usize) -> (r: Option<(Vec<Vec<u8>>, usize)>)
    ensures
        r matches Some((l, j)) ==> dec_bytes_list(s@, i as int) == Some((l.deep_view(), j as int)),
        r is None ==> dec_bytes_list(s@, i as int) is None,
{
    match read_u64_le(s, i) {
        None => None,
        Some((n, j0)) => {
            let mut l: Vec<Vec<u8>> = Vec::new();
            let mut cur: usize = j0;
            let mut k: u64 = 0;
            let mut failed = false;
            while k < n
                invariant
                    k <= n,
                    cur <= s@.len(),
                    failed ==> dec_bytes_list_rec(s@, j0 as int, n as nat) is None,
                    !failed ==> dec_bytes_list_rec(s@, j0 as int, n as nat)
                        == match dec_bytes_list_rec(s@, cur as int, (n - k) as nat) {
                        None => None::<(Seq<Seq<u8>>, int)>,
                        Some((rest, e)) => Some((l.deep_view() + rest, e)),
                    },
                decreases n - k,
            {
                match read_bytes(s, cur) {
                    None => {
                        failed = true;
                        k = n;
                    },
                    Some((b, nxt)) => {
                        let ghost l_old = l.deep_view();
                        l.push(b);
                        cur = nxt;
                        k = k + 1;
                        proof {
                            assert(l.deep_view() =~~= l_old.push(b@));
                            match dec_bytes_list_rec(s@, nxt as int, (n - k) as nat) {
                                Some((rest, e)) => {
                                    assert(l_old + (seq![b@] + rest) =~~= l.deep_view() + rest);
                                },
                                None => {},
                            }
                        }
                    },
                }
            }
            if failed {
                None
            } else {
                proof {
                    assert(l.deep_view() + Seq::<Seq<u8>>::empty() =~= l.deep_view());
                }
                Some((l, cur))
            }
        },
    }
}

/// Equality of two byte vectors, decided byte by byte.
pub fn bytes_eq(a: &Vec<u8>, b: &Vec<u8>) -> (r: bool)
    ensures
        r == (a@ == b@),
{
    if a.len() != b.len() {
        return false;
    }
    let mut k: usize = 0;
    while k < a.len()
        invariant
            k <= a.len(),
            a@.len() == b@.len(),
            forall|j: int| 0 <= j < k ==> a@[j] == b@[j],
        decreases a.len() - k,
    {
        if a[k] != b[k] {
            return false;
        }
        k = k + 1;
    }
    proof {
        assert(a@ =~= b@);
    }
    true
}

/// A fresh vector holding the same bytes.
pub fn clone_bytes(v: &Vec<u8>) -> (r: Vec<u8>)
    ensures
        r@ == v@,
{
    let mut r: Vec<u8> = Vec::new();
    let mut k: usize = 0;
    while k < v.len()
        invariant
            k <= v.len(),
            r@ == v@.subrange(0, k as int),
        decreases v.len() - k,
    {
        r.push(v[k]);
        k = k + 1;
        proof {
            assert(r@ =~= v@.subrange(0, k as int));
        }
    }
    proof {
        assert(v@.subrange(0, v@.len() as int) =~= v@);
    }
    r
}

/// A fresh vector holding the same byte strings.
pub fn clone_bytes_list(v: &Vec<Vec<u8>>) -> (r: Vec<Vec<u8>>)
    ensures
        r.deep_view() == v.deep_view(),
{
    let mut r: Vec<Vec<u8>> = Vec::new();
    let mut k: usize = 0;
    while k < v.len()
        invariant
            k <= v.len(),
            r@.len() == k,
            forall|j: int| 0 <= j < k ==> #[trigger] r@[j]@ == v@[j]@,
        decreases v.len() - k,
    {
        r.push(clone_bytes(&v[k]));
        k = k + 1;
    }
    proof {
        assert forall|i: int| 0 <= i < r.deep_view().len() implies #[trigger] r.deep_view()[i]
            == v.deep_view()[i] by {
            assert(r@[i].deep_view() =~= r@[i]@);
            assert(v@[i].deep_view() =~= v@[i]@);
        }
        assert(r.deep_view() =~= v.deep_view());
    }
    r
}

/// A subrange taken out of a larger subrange of `s` equals the matching
/// subrange of the smaller sequence.
pub proof fn lemma_subrange_nested(s: Seq<u8>, i: int, whole: Seq<u8>, off: int, plen: int)
    requires
        0 <= i,
        i + whole.len() <= s.len(),
        s.subrange(i, i + whole.len()) == whole,
        0 <= off,
        0 <= plen,
        off + plen <= whole.len(),
    ensures
        s.subrange(i + off, i + off + plen) == whole.subrange(off, off + plen),
{
    assert forall|k: int| 0 <= k < plen implies #[trigger] s.subrange(i + off, i + off + plen)[k]
        == whole.subrange(off, off + plen)[k] by {
        assert(s.subrange(i, i + whole.len())[off + k] == whole[off + k]);
    }
    assert(s.subrange(i + off, i + off + plen) =~= whole.subrange(off, off + plen));
}

/// Equality of two lists of byte strings, decided element by element.
pub fn bytes_list_eq(a: &Vec<Vec<u8>>, b: &Vec<Vec<u8>>) -> (r: bool)
    ensures
        r == (a.deep_view() == b.deep_view()),
{
    if a.len() != b.len() {
        proof {
            assert(a.deep_view().len() != b.deep_view().len());
        }
        return false;
    }
    let mut k: usize = 0;
    while k < a.len()
        invariant
            k <= a.len(),
            a@.len() == b@.len(),
            forall|j: int| 0 <= j < k ==> #[trigger] a@[j]@ == b@[j]@,
        decreases a.len() - k,
    {
        if !bytes_eq(&a[k], &b[k]) {
            proof {
                assert(a.deep_view()[k as int] =~= a@[k as int]@);
                assert(b.deep_view()[k as int] =~= b@[k as int]@);
                assert(a.deep_view()[k as int] != b.deep_view()[k as int]);
            }
            return false;
        }
        k = k + 1;
    }
    proof {
        assert forall|i: int| 0 <= i < a.deep_view().len() implies #[trigger] a.deep_view()[i]
            == b.deep_view()[i] by {
            assert(a.deep_view()[i] =~= a@[i]@);
            assert(b.deep_view()[i] =~= b@[i]@);
        }
        assert(a.deep_view() =~= b.deep_view());
    }
    true
}

} // verus!
