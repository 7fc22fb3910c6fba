use vstd::prelude::*;

mod predicate_sealed;

verus! {

/// A value that can be read from the front of a run of bytes.
pub trait ByteCopy: Sized {
    /// The fewest bytes a value takes.
    spec fn spec_min_length() -> nat;

    /// The most bytes a value takes, where that is bounded.
    spec fn spec_max_length() -> Option<nat>;

    /// Whether both lengths, and those of every part, fit in `usize`, and no array within holds
    /// more than `u32::MAX` items.
    spec fn spec_lengths_fit() -> bool;

    /// The value at the front of `data`, and how many bytes it took; `None` where none can be read.
    spec fn spec_extract(data: Seq<u8>) -> Option<(Self, nat)>;

    /// A read never takes more bytes than it was given.
    proof fn lemma_extract_len(data: Seq<u8>)
        ensures
            Self::spec_extract(data) matches Some((_, n)) ==> n <= data.len(),
    ;

    /// Whether every value takes the same number of bytes, and so does every part of it; every
    /// type built from `u8` by tuples and arrays is.
    spec fn spec_fixed() -> bool;

    /// A value of a fixed length is read from any run of bytes at least that long, and the read
    /// takes exactly that many bytes.
    proof fn lemma_fixed_extract(data: Seq<u8>)
        requires
            Self::spec_fixed(),
            Self::spec_min_length() <= data.len(),
        ensures
            Self::spec_max_length() == Some(Self::spec_min_length()),
            Self::spec_extract(data) matches Some((_, n)) && n == Self::spec_min_length(),
    ;

    fn min_length() -> (r: usize)
        requires
            Self::spec_lengths_fit(),
        ensures
            r == Self::spec_min_length(),
    ;

    fn max_length() -> (r: Option<usize>)
        requires
            Self::spec_lengths_fit(),
        ensures
            r is None <==> Self::spec_max_length() is None,
            r matches Some(m) ==> Self::spec_max_length() == Some(m as nat),
    ;

    /// Reads a value from the front of `data`.
    fn extract(data: &[u8]) -> (r: Option<(Self, usize)>)
        requires
            Self::spec_lengths_fit(),
        ensures
            match Self::spec_extract(data@) {
                Some((v, n)) => r == Some((v, n as usize)),
                None => r is None,
            },
    ;
}

/// Whether values of `T` always take the same number of bytes.
pub fn sized_predicate<T: ByteCopy>() -> (r: bool)
    requires
        T::spec_lengths_fit(),
    ensures
        r == (T::spec_max_length() == Some(T::spec_min_length())),
{
    match T::max_length() {
        Some(len) => len == T::min_length(),
        None => false,
    }
}

impl ByteCopy for u8 {
    open spec fn spec_min_length() -> nat {
        1
    }

    open spec fn spec_max_length() -> Option<nat> {
        Some(1)
    }

    open spec fn spec_lengths_fit() -> bool {
        true
    }

    open spec fn spec_extract(data: Seq<u8>) -> Option<(u8, nat)> {
        if data.len() > 0 {
            Some((data[0], 1))
        } else {
            None
        }
    }

    proof fn lemma_extract_len(data: Seq<u8>) {
    }

    open spec fn spec_fixed() -> bool {
        true
    }

    proof fn lemma_fixed_extract(data: Seq<u8>) {
    }

    fn min_length() -> (r: usize) {
        1
    }

    fn max_length() -> (r: Option<usize>) {
        Some(1)
    }

    fn extract(data: &[u8]) -> (r: Option<(u8, usize)>) {
        if !data.is_empty() {
            Some((data[0], 1))
        } else {
            None
        }
    }
}

/// The suffix of `data` after its first `n` bytes.
fn skip_bytes(data: &[u8], n: usize) -> (r: &[u8])
    requires
        n <= data@.len(),
    ensures
        r@ == data@.skip(n as int),
{
    let (_, rest) = data.split_at(n);
    assert(rest@ =~= data@.skip(n as int));
    rest
}

} // verus!

verus! {

impl<A: ByteCopy> ByteCopy for (A,) {
    open spec fn spec_min_length() -> nat {
        A::spec_min_length()
    }

    open spec fn spec_max_length() -> Option<nat> {
        if A::spec_max_length() is Some {
            Some(A::spec_max_length().unwrap())
        } else {
            None
        }
    }

    open spec fn spec_lengths_fit() -> bool {
        A::spec_lengths_fit()
        && Self::spec_min_length() <= usize::MAX
        && (Self::spec_max_length() matches Some(m) ==> m <= usize::MAX)
    }

    open spec fn spec_extract(data: Seq<u8>) -> Option<(Self, nat)> {
        let d0 = data;
        match A::spec_extract(d0) {
            None => None,
            Some((v0, l0)) => {
                Some(((v0,), l0))
            },
        }
    }

    open spec fn spec_fixed() -> bool {
        A::spec_fixed()
    }

    proof fn lemma_fixed_extract(data: Seq<u8>) {
        let d0 = data;
        A::lemma_fixed_extract(d0);
    }

    proof fn lemma_extract_len(data: Seq<u8>) {
        let d0 = data;
        A::lemma_extract_len(d0);
    }

    fn min_length() -> (r: usize) {
        A::min_length()
    }

    fn max_length() -> (r: Option<usize>) {
        let am = match A::max_length() {
            Some(m) => m,
            None => return None,
        };
        Some(am)
    }

    fn extract(data: &[u8]) -> (r: Option<(Self, usize)>) {
        let d0 = data;
        let (v0, l0) = match A::extract(d0) {
            Some(p) => p,
            None => return None,
        };
        proof {
            A::lemma_extract_len(d0@);
        }
        Some(((v0,), l0))
    }
}

} // verus!

verus! {

impl<A: ByteCopy, B: ByteCopy> ByteCopy for (A, B) {
    open spec fn spec_min_length() -> nat {
        A::spec_min_length() + B::spec_min_length()
    }

    open spec fn spec_max_length() -> Option<nat> {
        if A::spec_max_length() is Some && B::spec_max_length() is Some {
            Some(A::spec_max_length().unwrap() + B::spec_max_length().unwrap())
        } else {
            None
        }
    }

    open spec fn spec_lengths_fit() -> bool {
        A::spec_lengths_fit()
        && B::spec_lengths_fit()
        && Self::spec_min_length() <= usize::MAX
        && (Self::spec_max_length() matches Some(m) ==> m <= usize::MAX)
    }

    open spec fn spec_extract(data: Seq<u8>) -> Option<(Self, nat)> {
        let d0 = data;
        match A::spec_extract(d0) {
            None => None,
            Some((v0, l0)) => {
                let d1 = d0.skip(l0 as int);
                match B::spec_extract(d1) {
                    None => None,
                    Some((v1, l1)) => {
                        Some(((v0, v1), l0 + l1))
                    },
                }
            },
        }
    }

    open spec fn spec_fixed() -> bool {
        A::spec_fixed() && B::spec_fixed()
    }

    proof fn lemma_fixed_extract(data: Seq<u8>) {
        let d0 = data;
        A::lemma_fixed_extract(d0);
        let d1 = d0.skip(A::spec_min_length() as int);
        B::lemma_fixed_extract(d1);
    }

    proof fn lemma_extract_len(data: Seq<u8>) {
        let d0 = data;
        A::lemma_extract_len(d0);
        let d1 = match A::spec_extract(d0) {
            Some((_, l)) => d0.skip(l as int),
            None => d0,
        };
        B::lemma_extract_len(d1);
    }

    fn min_length() -> (r: usize) {
        A::min_length() + B::min_length()
    }

    fn max_length() -> (r: Option<usize>) {
        let am = match A::max_length() {
            Some(m) => m,
            None => return None,
        };
        let bm = match B::max_length() {
            Some(m) => m,
            None => return None,
        };
        Some(am + bm)
    }

    fn extract(data: &[u8]) -> (r: Option<(Self, usize)>) {
        let total = data.len();
        let d0 = data;
        let (v0, l0) = match A::extract(d0) {
            Some(p) => p,
            None => return None,
        };
        proof {
            A::lemma_extract_len(d0@);
            assert(l0 <= total);
        }
        let d1 = skip_bytes(d0, l0);
        let (v1, l1) = match B::extract(d1) {
            Some(p) => p,
            None => return None,
        };
        proof {
            B::lemma_extract_len(d1@);
            assert(d1@.len() == data@.len() - (l0));
            assert(l0 + l1 <= total);
        }
        Some(((v0, v1), l0 + l1))
    }
}

} // verus!

verus! {

impl<A: ByteCopy, B: ByteCopy, C: ByteCopy> ByteCopy for (A, B, C) {
    open spec fn spec_min_length() -> nat {
        A::spec_min_length() + B::spec_min_length() + C::spec_min_length()
    }

    open spec fn spec_max_length() -> Option<nat> {
        if A::spec_max_length() is Some && B::spec_max_length() is Some && C::spec_max_length() is Some {
            Some(A::spec_max_length().unwrap() + B::spec_max_length().unwrap() + C::spec_max_length().unwrap())
        } else {
            None
        }
    }

    open spec fn spec_lengths_fit() -> bool {
        A::spec_lengths_fit()
        && B::spec_lengths_fit()
        && C::spec_lengths_fit()
        && Self::spec_min_length() <= usize::MAX
        && (Self::spec_max_length() matches Some(m) ==> m <= usize::MAX)
    }

    open spec fn spec_extract(data: Seq<u8>) -> Option<(Self, nat)> {
        let d0 = data;
        match A::spec_extract(d0) {
            None => None,
            Some((v0, l0)) => {
                let d1 = d0.skip(l0 as int);
                match B::spec_extract(d1) {
                    None => None,
                    Some((v1, l1)) => {
                        let d2 = d1.skip(l1 as int);
                        match C::spec_extract(d2) {
                            None => None,
                            Some((v2, l2)) => {
                                Some(((v0, v1, v2), l0 + l1 + l2))
                            },
                        }
                    },
                }
            },
        }
    }

    open spec fn spec_fixed() -> bool {
        A::spec_fixed() && B::spec_fixed() && C::spec_fixed()
    }

    proof fn lemma_fixed_extract(data: Seq<u8>) {
        let d0 = data;
        A::lemma_fixed_extract(d0);
        let d1 = d0.skip(A::spec_min_length() as int);
        B::lemma_fixed_extract(d1);
        let d2 = d1.skip(B::spec_min_length() as int);
        C::lemma_fixed_extract(d2);
    }

    proof fn lemma_extract_len(data: Seq<u8>) {
        let d0 = data;
        A::lemma_extract_len(d0);
        let d1 = match A::spec_extract(d0) {
            Some((_, l)) => d0.skip(l as int),
            None => d0,
        };
        B::lemma_extract_len(d1);
        let d2 = match B::spec_extract(d1) {
            Some((_, l)) => d1.skip(l as int),
            None => d1,
        };
        C::lemma_extract_len(d2);
    }

    fn min_length() -> (r: usize) {
        A::min_length() + B::min_length() + C::min_length()
    }

    fn max_length() -> (r: Option<usize>) {
        let am = match A::max_length() {
            Some(m) => m,
            None => return None,
        };
        let bm = match B::max_length() {
            Some(m) => m,
            None => return None,
        };
        let cm = match C::max_length() {
            Some(m) => m,
            None => return None,
        };
        Some(am + bm + cm)
    }

    fn extract(data: &[u8]) -> (r: Option<(Self, usize)>) {
        let total = data.len();
        let d0 = data;
        let (v0, l0) = match A::extract(d0) {
            Some(p) => p,
            None => return None,
        };
        proof {
            A::lemma_extract_len(d0@);
            assert(l0 <= total);
        }
        let d1 = skip_bytes(d0, l0);
        let (v1, l1) = match B::extract(d1) {
            Some(p) => p,
            None => return None,
        };
        proof {
            B::lemma_extract_len(d1@);
            assert(d1@.len() == data@.len() - (l0));
            assert(l0 + l1 <= total);
        }
        let d2 = skip_bytes(d1, l1);
        let (v2, l2) = match C::extract(d2) {
            Some(p) => p,
            None => return None,
        };
        proof {
            C::lemma_extract_len(d2@);
            assert(d2@.len() == data@.len() - (l0 + l1));
            assert(l0 + l1 + l2 <= total);
        }
        Some(((v0, v1, v2), l0 + l1 + l2))
    }
}

} // verus!

verus! {

impl<A: ByteCopy, B: ByteCopy, C: ByteCopy, D: ByteCopy> ByteCopy for (A, B, C, D) {
    open spec fn spec_min_length() -> nat {
        A::spec_min_length() + B::spec_min_length() + C::spec_min_length() + D::spec_min_length()
    }

    open spec fn spec_max_length() -> Option<nat> {
        if A::spec_max_length() is Some && B::spec_max_length() is Some && C::spec_max_length() is Some && D::spec_max_length() is Some {
            Some(A::spec_max_length().unwrap() + B::spec_max_length().unwrap() + C::spec_max_length().unwrap() + D::spec_max_length().unwrap())
        } else {
            None
        }
    }

    open spec fn spec_lengths_fit() -> bool {
        A::spec_lengths_fit()
        && B::spec_lengths_fit()
        && C::spec_lengths_fit()
        && D::spec_lengths_fit()
        && Self::spec_min_length() <= usize::MAX
        && (Self::spec_max_length() matches Some(m) ==> m <= usize::MAX)
    }

    open spec fn spec_extract(data: Seq<u8>) -> Option<(Self, nat)> {
        let d0 = data;
        match A::spec_extract(d0) {
            None => None,
            Some((v0, l0)) => {
                let d1 = d0.skip(l0 as int);
                match B::spec_extract(d1) {
                    None => None,
                    Some((v1, l1)) => {
                        let d2 = d1.skip(l1 as int);
                        match C::spec_extract(d2) {
                            None => None,
                            Some((v2, l2)) => {
                                let d3 = d2.skip(l2 as int);
                                match D::spec_extract(d3) {
                                    None => None,
                                    Some((v3, l3)) => {
                                        Some(((v0, v1, v2, v3), l0 + l1 + l2 + l3))
                                    },
                                }
                            },
                        }
                    },
                }
            },
        }
    }

    open spec fn spec_fixed() -> bool {
        A::spec_fixed() && B::spec_fixed() && C::spec_fixed() && D::spec_fixed()
    }

    proof fn lemma_fixed_extract(data: Seq<u8>) {
        let d0 = data;
        A::lemma_fixed_extract(d0);
        let d1 = d0.skip(A::spec_min_length() as int);
        B::lemma_fixed_extract(d1);
        let d2 = d1.skip(B::spec_min_length() as int);
        C::lemma_fixed_extract(d2);
        let d3 = d2.skip(C::spec_min_length() as int);
        D::lemma_fixed_extract(d3);
    }

    proof fn lemma_extract_len(data: Seq<u8>) {
        let d0 = data;
        A::lemma_extract_len(d0);
        let d1 = match A::spec_extract(d0) {
            Some((_, l)) => d0.skip(l as int),
            None => d0,
        };
        B::lemma_extract_len(d1);
        let d2 = match B::spec_extract(d1) {
            Some((_, l)) => d1.skip(l as int),
            None => d1,
        };
        C::lemma_extract_len(d2);
        let d3 = match C::spec_extract(d2) {
            Some((_, l)) => d2.skip(l as int),
            None => d2,
        };
        D::lemma_extract_len(d3);
    }

    fn min_length() -> (r: usize) {
        A::min_length() + B::min_length() + C::min_length() + D::min_length()
    }

    fn max_length() -> (r: Option<usize>) {
        let am = match A::max_length() {
            Some(m) => m,
            None => return None,
        };
        let bm = match B::max_length() {
            Some(m) => m,
            None => return None,
        };
        let cm = match C::max_length() {
            Some(m) => m,
            None => return None,
        };
        let dm = match D::max_length() {
            Some(m) => m,
            None => return None,
        };
        Some(am + bm + cm + dm)
    }

    fn extract(data: &[u8]) -> (r: Option<(Self, usize)>) {
        let total = data.len();
        let d0 = data;
        let (v0, l0) = match A::extract(d0) {
            Some(p) => p,
            None => return None,
        };
        proof {
            A::lemma_extract_len(d0@);
            assert(l0 <= total);
        }
        let d1 = skip_bytes(d0, l0);
        let (v1, l1) = match B::extract(d1) {
            Some(p) => p,
            None => return None,
        };
        proof {
            B::lemma_extract_len(d1@);
            assert(d1@.len() == data@.len() - (l0));
            assert(l0 + l1 <= total);
        }
        let d2 = skip_bytes(d1, l1);
        let (v2, l2) = match C::extract(d2) {
            Some(p) => p,
            None => return None,
        };
        proof {
            C::lemma_extract_len(d2@);
            assert(d2@.len() == data@.len() - (l0 + l1));
            assert(l0 + l1 + l2 <= total);
        }
        let d3 = skip_bytes(d2, l2);
        let (v3, l3) = match D::extract(d3) {
            Some(p) => p,
            None => return None,
        };
        proof {
            D::lemma_extract_len(d3@);
            assert(d3@.len() == data@.len() - (l0 + l1 + l2));
            assert(l0 + l1 + l2 + l3 <= total);
        }
        Some(((v0, v1, v2, v3), l0 + l1 + l2 + l3))
    }
}

} // verus!

verus! {

impl<A: ByteCopy, B: ByteCopy, C: ByteCopy, D: ByteCopy, E: ByteCopy> ByteCopy for (A, B, C, D, E) {
    open spec fn spec_min_length() -> nat {
        A::spec_min_length() + B::spec_min_length() + C::spec_min_length() + D::spec_min_length() + E::spec_min_length()
    }

    open spec fn spec_max_length() -> Option<nat> {
        if A::spec_max_length() is Some && B::spec_max_length() is Some && C::spec_max_length() is Some && D::spec_max_length() is Some && E::spec_max_length() is Some {
            Some(A::spec_max_length().unwrap() + B::spec_max_length().unwrap() + C::spec_max_length().unwrap() + D::spec_max_length().unwrap() + E::spec_max_length().unwrap())
        } else {
            None
        }
    }

    open spec fn spec_lengths_fit() -> bool {
        A::spec_lengths_fit()
        && B::spec_lengths_fit()
        && C::spec_lengths_fit()
        && D::spec_lengths_fit()
        && E::spec_lengths_fit()
        && Self::spec_min_length() <= usize::MAX
        && (Self::spec_max_length() matches Some(m) ==> m <= usize::MAX)
    }

    open spec fn spec_extract(data: Seq<u8>) -> Option<(Self, nat)> {
        let d0 = data;
        match A::spec_extract(d0) {
            None => None,
            Some((v0, l0)) => {
                let d1 = d0.skip(l0 as int);
                match B::spec_extract(d1) {
                    None => None,
                    Some((v1, l1)) => {
                        let d2 = d1.skip(l1 as int);
                        match C::spec_extract(d2) {
                            None => None,
                            Some((v2, l2)) => {
                                let d3 = d2.skip(l2 as int);
                                match D::spec_extract(d3) {
                                    None => None,
                                    Some((v3, l3)) => {
                                        let d4 = d3.skip(l3 as int);
                                        match E::spec_extract(d4) {
                                            None => None,
                                            Some((v4, l4)) => {
                                                Some(((v0, v1, v2, v3, v4), l0 + l1 + l2 + l3 + l4))
                                            },
                                        }
                                    },
                                }
                            },
                        }
                    },
                }
            },
        }
    }

    open spec fn spec_fixed() -> bool {
        A::spec_fixed() && B::spec_fixed() && C::spec_fixed() && D::spec_fixed() && E::spec_fixed()
    }

    proof fn lemma_fixed_extract(data: Seq<u8>) {
        let d0 = data;
        A::lemma_fixed_extract(d0);
        let d1 = d0.skip(A::spec_min_length() as int);
        B::lemma_fixed_extract(d1);
        let d2 = d1.skip(B::spec_min_length() as int);
        C::lemma_fixed_extract(d2);
        let d3 = d2.skip(C::spec_min_length() as int);
        D::lemma_fixed_extract(d3);
        let d4 = d3.skip(D::spec_min_length() as int);
        E::lemma_fixed_extract(d4);
    }

    proof fn lemma_extract_len(data: Seq<u8>) {
        let d0 = data;
        A::lemma_extract_len(d0);
        let d1 = match A::spec_extract(d0) {
            Some((_, l)) => d0.skip(l as int),
            None => d0,
        };
        B::lemma_extract_len(d1);
        let d2 = match B::spec_extract(d1) {
            Some((_, l)) => d1.skip(l as int),
            None => d1,
        };
        C::lemma_extract_len(d2);
        let d3 = match C::spec_extract(d2) {
            Some((_, l)) => d2.skip(l as int),
            None => d2,
        };
        D::lemma_extract_len(d3);
        let d4 = match D::spec_extract(d3) {
            Some((_, l)) => d3.skip(l as int),
            None => d3,
        };
        E::lemma_extract_len(d4);
    }

    fn min_length() -> (r: usize) {
        A::min_length() + B::min_length() + C::min_length() + D::min_length() + E::min_length()
    }

    fn max_length() -> (r: Option<usize>) {
        let am = match A::max_length() {
            Some(m) => m,
            None => return None,
        };
        let bm = match B::max_length() {
            Some(m) => m,
            None => return None,
        };
        let cm = match C::max_length() {
            Some(m) => m,
            None => return None,
        };
        let dm = match D::max_length() {
            Some(m) => m,
            None => return None,
        };
        let em = match E::max_length() {
            Some(m) => m,
            None => return None,
        };
        Some(am + bm + cm + dm + em)
    }

    fn extract(data: &[u8]) -> (r: Option<(Self, usize)>) {
        let total = data.len();
        let d0 = data;
        let (v0, l0) = match A::extract(d0) {
            Some(p) => p,
            None => return None,
        };
        proof {
            A::lemma_extract_len(d0@);
            assert(l0 <= total);
        }
        let d1 = skip_bytes(d0, l0);
        let (v1, l1) = match B::extract(d1) {
            Some(p) => p,
            None => return None,
        };
        proof {
            B::lemma_extract_len(d1@);
            assert(d1@.len() == data@.len() - (l0));
            assert(l0 + l1 <= total);
        }
        let d2 = skip_bytes(d1, l1);
        let (v2, l2) = match C::extract(d2) {
            Some(p) => p,
            None => return None,
        };
        proof {
            C::lemma_extract_len(d2@);
            assert(d2@.len() == data@.len() - (l0 + l1));
            assert(l0 + l1 + l2 <= total);
        }
        let d3 = skip_bytes(d2, l2);
        let (v3, l3) = match D::extract(d3) {
            Some(p) => p,
            None => return None,
        };
        proof {
            D::lemma_extract_len(d3@);
            assert(d3@.len() == data@.len() - (l0 + l1 + l2));
            assert(l0 + l1 + l2 + l3 <= total);
        }
        let d4 = skip_bytes(d3, l3);
        let (v4, l4) = match E::extract(d4) {
            Some(p) => p,
            None => return None,
        };
        proof {
            E::lemma_extract_len(d4@);
            assert(d4@.len() == data@.len() - (l0 + l1 + l2 + l3));
            assert(l0 + l1 + l2 + l3 + l4 <= total);
        }
        Some(((v0, v1, v2, v3, v4), l0 + l1 + l2 + l3 + l4))
    }
}

} // verus!

verus! {

impl<A: ByteCopy, B: ByteCopy, C: ByteCopy, D: ByteCopy, E: ByteCopy, F: ByteCopy> ByteCopy for (A, B, C, D, E, F) {
    open spec fn spec_min_length() -> nat {
        A::spec_min_length() + B::spec_min_length() + C::spec_min_length() + D::spec_min_length() + E::spec_min_length() + F::spec_min_length()
    }

    open spec fn spec_max_length() -> Option<nat> {
        if A::spec_max_length() is Some && B::spec_max_length() is Some && C::spec_max_length() is Some && D::spec_max_length() is Some && E::spec_max_length() is Some && F::spec_max_length() is Some {
            Some(A::spec_max_length().unwrap() + B::spec_max_length().unwrap() + C::spec_max_length().unwrap() + D::spec_max_length().unwrap() + E::spec_max_length().unwrap() + F::spec_max_length().unwrap())
        } else {
            None
        }
    }

    open spec fn spec_lengths_fit() -> bool {
        A::spec_lengths_fit()
        && B::spec_lengths_fit()
        && C::spec_lengths_fit()
        && D::spec_lengths_fit()
        && E::spec_lengths_fit()
        && F::spec_lengths_fit()
        && Self::spec_min_length() <= usize::MAX
        && (Self::spec_max_length() matches Some(m) ==> m <= usize::MAX)
    }

    open spec fn spec_extract(data: Seq<u8>) -> Option<(Self, nat)> {
        let d0 = data;
        match A::spec_extract(d0) {
            None => None,
            Some((v0, l0)) => {
                let d1 = d0.skip(l0 as int);
                match B::spec_extract(d1) {
                    None => None,
                    Some((v1, l1)) => {
                        let d2 = d1.skip(l1 as int);
                        match C::spec_extract(d2) {
                            None => None,
                            Some((v2, l2)) => {
                                let d3 = d2.skip(l2 as int);
                                match D::spec_extract(d3) {
                                    None => None,
                                    Some((v3, l3)) => {
                                        let d4 = d3.skip(l3 as int);
                                        match E::spec_extract(d4) {
                                            None => None,
                                            Some((v4, l4)) => {
                                                let d5 = d4.skip(l4 as int);
                                                match F::spec_extract(d5) {
                                                    None => None,
                                                    Some((v5, l5)) => {
                                                        Some(((v0, v1, v2, v3, v4, v5), l0 + l1 + l2 + l3 + l4 + l5))
                                                    },
                                                }
                                            },
                                        }
                                    },
                                }
                            },
                        }
                    },
                }
            },
        }
    }

    open spec fn spec_fixed() -> bool {
        A::spec_fixed() && B::spec_fixed() && C::spec_fixed() && D::spec_fixed() && E::spec_fixed() && F::spec_fixed()
    }

    proof fn lemma_fixed_extract(data: Seq<u8>) {
        let d0 = data;
        A::lemma_fixed_extract(d0);
        let d1 = d0.skip(A::spec_min_length() as int);
        B::lemma_fixed_extract(d1);
        let d2 = d1.skip(B::spec_min_length() as int);
        C::lemma_fixed_extract(d2);
        let d3 = d2.skip(C::spec_min_length() as int);
        D::lemma_fixed_extract(d3);
        let d4 = d3.skip(D::spec_min_length() as int);
        E::lemma_fixed_extract(d4);
        let d5 = d4.skip(E::spec_min_length() as int);
        F::lemma_fixed_extract(d5);
    }

    proof fn lemma_extract_len(data: Seq<u8>) {
        let d0 = data;
        A::lemma_extract_len(d0);
        let d1 = match A::spec_extract(d0) {
            Some((_, l)) => d0.skip(l as int),
            None => d0,
        };
        B::lemma_extract_len(d1);
        let d2 = match B::spec_extract(d1) {
            Some((_, l)) => d1.skip(l as int),
            None => d1,
        };
        C::lemma_extract_len(d2);
        let d3 = match C::spec_extract(d2) {
            Some((_, l)) => d2.skip(l as int),
            None => d2,
        };
        D::lemma_extract_len(d3);
        let d4 = match D::spec_extract(d3) {
            Some((_, l)) => d3.skip(l as int),
            None => d3,
        };
        E::lemma_extract_len(d4);
        let d5 = match E::spec_extract(d4) {
            Some((_, l)) => d4.skip(l as int),
            None => d4,
        };
        F::lemma_extract_len(d5);
    }

    fn min_length() -> (r: usize) {
        A::min_length() + B::min_length() + C::min_length() + D::min_length() + E::min_length() + F::min_length()
    }

    fn max_length() -> (r: Option<usize>) {
        let am = match A::max_length() {
            Some(m) => m,
            None => return None,
        };
        let bm = match B::max_length() {
            Some(m) => m,
            None => return None,
        };
        let cm = match C::max_length() {
            Some(m) => m,
            None => return None,
        };
        let dm = match D::max_length() {
            Some(m) => m,
            None => return None,
        };
        let em = match E::max_length() {
            Some(m) => m,
            None => return None,
        };
        let fm = match F::max_length() {
            Some(m) => m,
            None => return None,
        };
        Some(am + bm + cm + dm + em + fm)
    }

    fn extract(data: &[u8]) -> (r: Option<(Self, usize)>) {
        let total = data.len();
        let d0 = data;
        let (v0, l0) = match A::extract(d0) {
            Some(p) => p,
            None => return None,
        };
        proof {
            A::lemma_extract_len(d0@);
            assert(l0 <= total);
        }
        let d1 = skip_bytes(d0, l0);
        let (v1, l1) = match B::extract(d1) {
            Some(p) => p,
            None => return None,
        };
        proof {
            B::lemma_extract_len(d1@);
            assert(d1@.len() == data@.len() - (l0));
            assert(l0 + l1 <= total);
        }
        let d2 = skip_bytes(d1, l1);
        let (v2, l2) = match C::extract(d2) {
            Some(p) => p,
            None => return None,
        };
        proof {
            C::lemma_extract_len(d2@);
            assert(d2@.len() == data@.len() - (l0 + l1));
            assert(l0 + l1 + l2 <= total);
        }
        let d3 = skip_bytes(d2, l2);
        let (v3, l3) = match D::extract(d3) {
            Some(p) => p,
            None => return None,
        };
        proof {
            D::lemma_extract_len(d3@);
            assert(d3@.len() == data@.len() - (l0 + l1 + l2));
            assert(l0 + l1 + l2 + l3 <= total);
        }
        let d4 = skip_bytes(d3, l3);
        let (v4, l4) = match E::extract(d4) {
            Some(p) => p,
            None => return None,
        };
        proof {
            E::lemma_extract_len(d4@);
            assert(d4@.len() == data@.len() - (l0 + l1 + l2 + l3));
            assert(l0 + l1 + l2 + l3 + l4 <= total);
        }
        let d5 = skip_bytes(d4, l4);
        let (v5, l5) = match F::extract(d5) {
            Some(p) => p,
            None => return None,
        };
        proof {
            F::lemma_extract_len(d5@);
            assert(d5@.len() == data@.len() - (l0 + l1 + l2 + l3 + l4));
            assert(l0 + l1 + l2 + l3 + l4 + l5 <= total);
        }
        Some(((v0, v1, v2, v3, v4, v5), l0 + l1 + l2 + l3 + l4 + l5))
    }
}

} // verus!

verus! {

impl<A: ByteCopy, B: ByteCopy, C: ByteCopy, D: ByteCopy, E: ByteCopy, F: ByteCopy, G: ByteCopy> ByteCopy for (A, B, C, D, E, F, G) {
    open spec fn spec_min_length() -> nat {
        A::spec_min_length() + B::spec_min_length() + C::spec_min_length() + D::spec_min_length() + E::spec_min_length() + F::spec_min_length() + G::spec_min_length()
    }

    open spec fn spec_max_length() -> Option<nat> {
        if A::spec_max_length() is Some && B::spec_max_length() is Some && C::spec_max_length() is Some && D::spec_max_length() is Some && E::spec_max_length() is Some && F::spec_max_length() is Some && G::spec_max_length() is Some {
            Some(A::spec_max_length().unwrap() + B::spec_max_length().unwrap() + C::spec_max_length().unwrap() + D::spec_max_length().unwrap() + E::spec_max_length().unwrap() + F::spec_max_length().unwrap() + G::spec_max_length().unwrap())
        } else {
            None
        }
    }

    open spec fn spec_lengths_fit() -> bool {
        A::spec_lengths_fit()
        && B::spec_lengths_fit()
        && C::spec_lengths_fit()
        && D::spec_lengths_fit()
        && E::spec_lengths_fit()
        && F::spec_lengths_fit()
        && G::spec_lengths_fit()
        && Self::spec_min_length() <= usize::MAX
        && (Self::spec_max_length() matches Some(m) ==> m <= usize::MAX)
    }

    open spec fn spec_extract(data: Seq<u8>) -> Option<(Self, nat)> {
        let d0 = data;
        match A::spec_extract(d0) {
            None => None,
            Some((v0, l0)) => {
                let d1 = d0.skip(l0 as int);
                match B::spec_extract(d1) {
                    None => None,
                    Some((v1, l1)) => {
                        let d2 = d1.skip(l1 as int);
                        match C::spec_extract(d2) {
                            None => None,
                            Some((v2, l2)) => {
                                let d3 = d2.skip(l2 as int);
                                match D::spec_extract(d3) {
                                    None => None,
                                    Some((v3, l3)) => {
                                        let d4 = d3.skip(l3 as int);
                                        match E::spec_extract(d4) {
                                            None => None,
                                            Some((v4, l4)) => {
                                                let d5 = d4.skip(l4 as int);
                                                match F::spec_extract(d5) {
                                                    None => None,
                                                    Some((v5, l5)) => {
                                                        let d6 = d5.skip(l5 as int);
                                                        match G::spec_extract(d6) {
                                                            None => None,
                                                            Some((v6, l6)) => {
                                                                Some(((v0, v1, v2, v3, v4, v5, v6), l0 + l1 + l2 + l3 + l4 + l5 + l6))
                                                            },
                                                        }
                                                    },
                                                }
                                            },
                                        }
                                    },
                                }
                            },
                        }
                    },
                }
            },
        }
    }

    open spec fn spec_fixed() -> bool {
        A::spec_fixed() && B::spec_fixed() && C::spec_fixed() && D::spec_fixed() && E::spec_fixed() && F::spec_fixed() && G::spec_fixed()
    }

    proof fn lemma_fixed_extract(data: Seq<u8>) {
        let d0 = data;
        A::lemma_fixed_extract(d0);
        let d1 = d0.skip(A::spec_min_length() as int);
        B::lemma_fixed_extract(d1);
        let d2 = d1.skip(B::spec_min_length() as int);
        C::lemma_fixed_extract(d2);
        let d3 = d2.skip(C::spec_min_length() as int);
        D::lemma_fixed_extract(d3);
        let d4 = d3.skip(D::spec_min_length() as int);
        E::lemma_fixed_extract(d4);
        let d5 = d4.skip(E::spec_min_length() as int);
        F::lemma_fixed_extract(d5);
        let d6 = d5.skip(F::spec_min_length() as int);
        G::lemma_fixed_extract(d6);
    }

    proof fn lemma_extract_len(data: Seq<u8>) {
        let d0 = data;
        A::lemma_extract_len(d0);
        let d1 = match A::spec_extract(d0) {
            Some((_, l)) => d0.skip(l as int),
            None => d0,
        };
        B::lemma_extract_len(d1);
        let d2 = match B::spec_extract(d1) {
            Some((_, l)) => d1.skip(l as int),
            None => d1,
        };
        C::lemma_extract_len(d2);
        let d3 = match C::spec_extract(d2) {
            Some((_, l)) => d2.skip(l as int),
            None => d2,
        };
        D::lemma_extract_len(d3);
        let d4 = match D::spec_extract(d3) {
            Some((_, l)) => d3.skip(l as int),
            None => d3,
        };
        E::lemma_extract_len(d4);
        let d5 = match E::spec_extract(d4) {
            Some((_, l)) => d4.skip(l as int),
            None => d4,
        };
        F::lemma_extract_len(d5);
        let d6 = match F::spec_extract(d5) {
            Some((_, l)) => d5.skip(l as int),
            None => d5,
        };
        G::lemma_extract_len(d6);
    }

    fn min_length() -> (r: usize) {
        A::min_length() + B::min_length() + C::min_length() + D::min_length() + E::min_length() + F::min_length() + G::min_length()
    }

    fn max_length() -> (r: Option<usize>) {
        let am = match A::max_length() {
            Some(m) => m,
            None => return None,
        };
        let bm = match B::max_length() {
            Some(m) => m,
            None => return None,
        };
        let cm = match C::max_length() {
            Some(m) => m,
            None => return None,
        };
        let dm = match D::max_length() {
            Some(m) => m,
            None => return None,
        };
        let em = match E::max_length() {
            Some(m) => m,
            None => return None,
        };
        let fm = match F::max_length() {
            Some(m) => m,
            None => return None,
        };
        let gm = match G::max_length() {
            Some(m) => m,
            None => return None,
        };
        Some(am + bm + cm + dm + em + fm + gm)
    }

    fn extract(data: &[u8]) -> (r: Option<(Self, usize)>) {
        let total = data.len();
        let d0 = data;
        let (v0, l0) = match A::extract(d0) {
            Some(p) => p,
            None => return None,
        };
        proof {
            A::lemma_extract_len(d0@);
            assert(l0 <= total);
        }
        let d1 = skip_bytes(d0, l0);
        let (v1, l1) = match B::extract(d1) {
            Some(p) => p,
            None => return None,
        };
        proof {
            B::lemma_extract_len(d1@);
            assert(d1@.len() == data@.len() - (l0));
            assert(l0 + l1 <= total);
        }
        let d2 = skip_bytes(d1, l1);
        let (v2, l2) = match C::extract(d2) {
            Some(p) => p,
            None => return None,
        };
        proof {
            C::lemma_extract_len(d2@);
            assert(d2@.len() == data@.len() - (l0 + l1));
            assert(l0 + l1 + l2 <= total);
        }
        let d3 = skip_bytes(d2, l2);
        let (v3, l3) = match D::extract(d3) {
            Some(p) => p,
            None => return None,
        };
        proof {
            D::lemma_extract_len(d3@);
            assert(d3@.len() == data@.len() - (l0 + l1 + l2));
            assert(l0 + l1 + l2 + l3 <= total);
        }
        let d4 = skip_bytes(d3, l3);
        let (v4, l4) = match E::extract(d4) {
            Some(p) => p,
            None => return None,
        };
        proof {
            E::lemma_extract_len(d4@);
            assert(d4@.len() == data@.len() - (l0 + l1 + l2 + l3));
            assert(l0 + l1 + l2 + l3 + l4 <= total);
        }
        let d5 = skip_bytes(d4, l4);
        let (v5, l5) = match F::extract(d5) {
            Some(p) => p,
            None => return None,
        };
        proof {
            F::lemma_extract_len(d5@);
            assert(d5@.len() == data@.len() - (l0 + l1 + l2 + l3 + l4));
            assert(l0 + l1 + l2 + l3 + l4 + l5 <= total);
        }
        let d6 = skip_bytes(d5, l5);
        let (v6, l6) = match G::extract(d6) {
            Some(p) => p,
            None => return None,
        };
        proof {
            G::lemma_extract_len(d6@);
            assert(d6@.len() == data@.len() - (l0 + l1 + l2 + l3 + l4 + l5));
            assert(l0 + l1 + l2 + l3 + l4 + l5 + l6 <= total);
        }
        Some(((v0, v1, v2, v3, v4, v5, v6), l0 + l1 + l2 + l3 + l4 + l5 + l6))
    }
}

} // verus!

verus! {

impl<A: ByteCopy, B: ByteCopy, C: ByteCopy, D: ByteCopy, E: ByteCopy, F: ByteCopy, G: ByteCopy, H: ByteCopy> ByteCopy for (A, B, C, D, E, F, G, H) {
    open spec fn spec_min_length() -> nat {
        A::spec_min_length() + B::spec_min_length() + C::spec_min_length() + D::spec_min_length() + E::spec_min_length() + F::spec_min_length() + G::spec_min_length() + H::spec_min_length()
    }

    open spec fn spec_max_length() -> Option<nat> {
        if A::spec_max_length() is Some && B::spec_max_length() is Some && C::spec_max_length() is Some && D::spec_max_length() is Some && E::spec_max_length() is Some && F::spec_max_length() is Some && G::spec_max_length() is Some && H::spec_max_length() is Some {
            Some(A::spec_max_length().unwrap() + B::spec_max_length().unwrap() + C::spec_max_length().unwrap() + D::spec_max_length().unwrap() + E::spec_max_length().unwrap() + F::spec_max_length().unwrap() + G::spec_max_length().unwrap() + H::spec_max_length().unwrap())
        } else {
            None
        }
    }

    open spec fn spec_lengths_fit() -> bool {
        A::spec_lengths_fit()
        && B::spec_lengths_fit()
        && C::spec_lengths_fit()
        && D::spec_lengths_fit()
        && E::spec_lengths_fit()
        && F::spec_lengths_fit()
        && G::spec_lengths_fit()
        && H::spec_lengths_fit()
        && Self::spec_min_length() <= usize::MAX
        && (Self::spec_max_length() matches Some(m) ==> m <= usize::MAX)
    }

    open spec fn spec_extract(data: Seq<u8>) -> Option<(Self, nat)> {
        let d0 = data;
        match A::spec_extract(d0) {
            None => None,
            Some((v0, l0)) => {
                let d1 = d0.skip(l0 as int);
                match B::spec_extract(d1) {
                    None => None,
                    Some((v1, l1)) => {
                        let d2 = d1.skip(l1 as int);
                        match C::spec_extract(d2) {
                            None => None,
                            Some((v2, l2)) => {
                                let d3 = d2.skip(l2 as int);
                                match D::spec_extract(d3) {
                                    None => None,
                                    Some((v3, l3)) => {
                                        let d4 = d3.skip(l3 as int);
                                        match E::spec_extract(d4) {
                                            None => None,
                                            Some((v4, l4)) => {
                                                let d5 = d4.skip(l4 as int);
                                                match F::spec_extract(d5) {
                                                    None => None,
                                                    Some((v5, l5)) => {
                                                        let d6 = d5.skip(l5 as int);
                                                        match G::spec_extract(d6) {
                                                            None => None,
                                                            Some((v6, l6)) => {
                                                                let d7 = d6.skip(l6 as int);
                                                                match H::spec_extract(d7) {
                                                                    None => None,
                                                                    Some((v7, l7)) => {
                                                                        Some(((v0, v1, v2, v3, v4, v5, v6, v7), l0 + l1 + l2 + l3 + l4 + l5 + l6 + l7))
                                                                    },
                                                                }
                                                            },
                                                        }
                                                    },
                                                }
                                            },
                                        }
                                    },
                                }
                            },
                        }
                    },
                }
            },
        }
    }

    open spec fn spec_fixed() -> bool {
        A::spec_fixed() && B::spec_fixed() && C::spec_fixed() && D::spec_fixed() && E::spec_fixed() && F::spec_fixed() && G::spec_fixed() && H::spec_fixed()
    }

    proof fn lemma_fixed_extract(data: Seq<u8>) {
        let d0 = data;
        A::lemma_fixed_extract(d0);
        let d1 = d0.skip(A::spec_min_length() as int);
        B::lemma_fixed_extract(d1);
        let d2 = d1.skip(B::spec_min_length() as int);
        C::lemma_fixed_extract(d2);
        let d3 = d2.skip(C::spec_min_length() as int);
        D::lemma_fixed_extract(d3);
        let d4 = d3.skip(D::spec_min_length() as int);
        E::lemma_fixed_extract(d4);
        let d5 = d4.skip(E::spec_min_length() as int);
        F::lemma_fixed_extract(d5);
        let d6 = d5.skip(F::spec_min_length() as int);
        G::lemma_fixed_extract(d6);
        let d7 = d6.skip(G::spec_min_length() as int);
        H::lemma_fixed_extract(d7);
    }

    proof fn lemma_extract_len(data: Seq<u8>) {
        let d0 = data;
        A::lemma_extract_len(d0);
        let d1 = match A::spec_extract(d0) {
            Some((_, l)) => d0.skip(l as int),
            None => d0,
        };
        B::lemma_extract_len(d1);
        let d2 = match B::spec_extract(d1) {
            Some((_, l)) => d1.skip(l as int),
            None => d1,
        };
        C::lemma_extract_len(d2);
        let d3 = match C::spec_extract(d2) {
            Some((_, l)) => d2.skip(l as int),
            None => d2,
        };
        D::lemma_extract_len(d3);
        let d4 = match D::spec_extract(d3) {
            Some((_, l)) => d3.skip(l as int),
            None => d3,
        };
        E::lemma_extract_len(d4);
        let d5 = match E::spec_extract(d4) {
            Some((_, l)) => d4.skip(l as int),
            None => d4,
        };
        F::lemma_extract_len(d5);
        let d6 = match F::spec_extract(d5) {
            Some((_, l)) => d5.skip(l as int),
            None => d5,
        };
        G::lemma_extract_len(d6);
        let d7 = match G::spec_extract(d6) {
            Some((_, l)) => d6.skip(l as int),
            None => d6,
        };
        H::lemma_extract_len(d7);
    }

    fn min_length() -> (r: usize) {
        A::min_length() + B::min_length() + C::min_length() + D::min_length() + E::min_length() + F::min_length() + G::min_length() + H::min_length()
    }

    fn max_length() -> (r: Option<usize>) {
        let am = match A::max_length() {
            Some(m) => m,
            None => return None,
        };
        let bm = match B::max_length() {
            Some(m) => m,
            None => return None,
        };
        let cm = match C::max_length() {
            Some(m) => m,
            None => return None,
        };
        let dm = match D::max_length() {
            Some(m) => m,
            None => return None,
        };
        let em = match E::max_length() {
            Some(m) => m,
            None => return None,
        };
        let fm = match F::max_length() {
            Some(m) => m,
            None => return None,
        };
        let gm = match G::max_length() {
            Some(m) => m,
            None => return None,
        };
        let hm = match H::max_length() {
            Some(m) => m,
            None => return None,
        };
        Some(am + bm + cm + dm + em + fm + gm + hm)
    }

    fn extract(data: &[u8]) -> (r: Option<(Self, usize)>) {
        let total = data.len();
        let d0 = data;
        let (v0, l0) = match A::extract(d0) {
            Some(p) => p,
            None => return None,
        };
        proof {
            A::lemma_extract_len(d0@);
            assert(l0 <= total);
        }
        let d1 = skip_bytes(d0, l0);
        let (v1, l1) = match B::extract(d1) {
            Some(p) => p,
            None => return None,
        };
        proof {
            B::lemma_extract_len(d1@);
            assert(d1@.len() == data@.len() - (l0));
            assert(l0 + l1 <= total);
        }
        let d2 = skip_bytes(d1, l1);
        let (v2, l2) = match C::extract(d2) {
            Some(p) => p,
            None => return None,
        };
        proof {
            C::lemma_extract_len(d2@);
            assert(d2@.len() == data@.len() - (l0 + l1));
            assert(l0 + l1 + l2 <= total);
        }
        let d3 = skip_bytes(d2, l2);
        let (v3, l3) = match D::extract(d3) {
            Some(p) => p,
            None => return None,
        };
        proof {
            D::lemma_extract_len(d3@);
            assert(d3@.len() == data@.len() - (l0 + l1 + l2));
            assert(l0 + l1 + l2 + l3 <= total);
        }
        let d4 = skip_bytes(d3, l3);
        let (v4, l4) = match E::extract(d4) {
            Some(p) => p,
            None => return None,
        };
        proof {
            E::lemma_extract_len(d4@);
            assert(d4@.len() == data@.len() - (l0 + l1 + l2 + l3));
            assert(l0 + l1 + l2 + l3 + l4 <= total);
        }
        let d5 = skip_bytes(d4, l4);
        let (v5, l5) = match F::extract(d5) {
            Some(p) => p,
            None => return None,
        };
        proof {
            F::lemma_extract_len(d5@);
            assert(d5@.len() == data@.len() - (l0 + l1 + l2 + l3 + l4));
            assert(l0 + l1 + l2 + l3 + l4 + l5 <= total);
        }
        let d6 = skip_bytes(d5, l5);
        let (v6, l6) = match G::extract(d6) {
            Some(p) => p,
            None => return None,
        };
        proof {
            G::lemma_extract_len(d6@);
            assert(d6@.len() == data@.len() - (l0 + l1 + l2 + l3 + l4 + l5));
            assert(l0 + l1 + l2 + l3 + l4 + l5 + l6 <= total);
        }
        let d7 = skip_bytes(d6, l6);
        let (v7, l7) = match H::extract(d7) {
            Some(p) => p,
            None => return None,
        };
        proof {
            H::lemma_extract_len(d7@);
            assert(d7@.len() == data@.len() - (l0 + l1 + l2 + l3 + l4 + l5 + l6));
            assert(l0 + l1 + l2 + l3 + l4 + l5 + l6 + l7 <= total);
        }
        Some(((v0, v1, v2, v3, v4, v5, v6, v7), l0 + l1 + l2 + l3 + l4 + l5 + l6 + l7))
    }
}

} // verus!

verus! {

impl<A: ByteCopy, B: ByteCopy, C: ByteCopy, D: ByteCopy, E: ByteCopy, F: ByteCopy, G: ByteCopy, H: ByteCopy, I: ByteCopy> ByteCopy for (A, B, C, D, E, F, G, H, I) {
    open spec fn spec_min_length() -> nat {
        A::spec_min_length() + B::spec_min_length() + C::spec_min_length() + D::spec_min_length() + E::spec_min_length() + F::spec_min_length() + G::spec_min_length() + H::spec_min_length() + I::spec_min_length()
    }

    open spec fn spec_max_length() -> Option<nat> {
        if A::spec_max_length() is Some && B::spec_max_length() is Some && C::spec_max_length() is Some && D::spec_max_length() is Some && E::spec_max_length() is Some && F::spec_max_length() is Some && G::spec_max_length() is Some && H::spec_max_length() is Some && I::spec_max_length() is Some {
            Some(A::spec_max_length().unwrap() + B::spec_max_length().unwrap() + C::spec_max_length().unwrap() + D::spec_max_length().unwrap() + E::spec_max_length().unwrap() + F::spec_max_length().unwrap() + G::spec_max_length().unwrap() + H::spec_max_length().unwrap() + I::spec_max_length().unwrap())
        } else {
            None
        }
    }

    open spec fn spec_lengths_fit() -> bool {
        A::spec_lengths_fit()
        && B::spec_lengths_fit()
        && C::spec_lengths_fit()
        && D::spec_lengths_fit()
        && E::spec_lengths_fit()
        && F::spec_lengths_fit()
        && G::spec_lengths_fit()
        && H::spec_lengths_fit()
        && I::spec_lengths_fit()
        && Self::spec_min_length() <= usize::MAX
        && (Self::spec_max_length() matches Some(m) ==> m <= usize::MAX)
    }

    open spec fn spec_extract(data: Seq<u8>) -> Option<(Self, nat)> {
        let d0 = data;
        match A::spec_extract(d0) {
            None => None,
            Some((v0, l0)) => {
                let d1 = d0.skip(l0 as int);
                match B::spec_extract(d1) {
                    None => None,
                    Some((v1, l1)) => {
                        let d2 = d1.skip(l1 as int);
                        match C::spec_extract(d2) {
                            None => None,
                            Some((v2, l2)) => {
                                let d3 = d2.skip(l2 as int);
                                match D::spec_extract(d3) {
                                    None => None,
                                    Some((v3, l3)) => {
                                        let d4 = d3.skip(l3 as int);
                                        match E::spec_extract(d4) {
                                            None => None,
                                            Some((v4, l4)) => {
                                                let d5 = d4.skip(l4 as int);
                                                match F::spec_extract(d5) {
                                                    None => None,
                                                    Some((v5, l5)) => {
                                                        let d6 = d5.skip(l5 as int);
                                                        match G::spec_extract(d6) {
                                                            None => None,
                                                            Some((v6, l6)) => {
                                                                let d7 = d6.skip(l6 as int);
                                                                match H::spec_extract(d7) {
                                                                    None => None,
                                                                    Some((v7, l7)) => {
                                                                        let d8 = d7.skip(l7 as int);
                                                                        match I::spec_extract(d8) {
                                                                            None => None,
                                                                            Some((v8, l8)) => {
                                                                                Some(((v0, v1, v2, v3, v4, v5, v6, v7, v8), l0 + l1 + l2 + l3 + l4 + l5 + l6 + l7 + l8))
                                                                            },
                                                                        }
                                                                    },
                                                                }
                                                            },
                                                        }
                                                    },
                                                }
                                            },
                                        }
                                    },
                                }
                            },
                        }
                    },
                }
            },
        }
    }

    open spec fn spec_fixed() -> bool {
        A::spec_fixed() && B::spec_fixed() && C::spec_fixed() && D::spec_fixed() && E::spec_fixed() && F::spec_fixed() && G::spec_fixed() && H::spec_fixed() && I::spec_fixed()
    }

    proof fn lemma_fixed_extract(data: Seq<u8>) {
        let d0 = data;
        A::lemma_fixed_extract(d0);
        let d1 = d0.skip(A::spec_min_length() as int);
        B::lemma_fixed_extract(d1);
        let d2 = d1.skip(B::spec_min_length() as int);
        C::lemma_fixed_extract(d2);
        let d3 = d2.skip(C::spec_min_length() as int);
        D::lemma_fixed_extract(d3);
        let d4 = d3.skip(D::spec_min_length() as int);
        E::lemma_fixed_extract(d4);
        let d5 = d4.skip(E::spec_min_length() as int);
        F::lemma_fixed_extract(d5);
        let d6 = d5.skip(F::spec_min_length() as int);
        G::lemma_fixed_extract(d6);
        let d7 = d6.skip(G::spec_min_length() as int);
        H::lemma_fixed_extract(d7);
        let d8 = d7.skip(H::spec_min_length() as int);
        I::lemma_fixed_extract(d8);
    }

    proof fn lemma_extract_len(data: Seq<u8>) {
        let d0 = data;
        A::lemma_extract_len(d0);
        let d1 = match A::spec_extract(d0) {
            Some((_, l)) => d0.skip(l as int),
            None => d0,
        };
        B::lemma_extract_len(d1);
        let d2 = match B::spec_extract(d1) {
            Some((_, l)) => d1.skip(l as int),
            None => d1,
        };
        C::lemma_extract_len(d2);
        let d3 = match C::spec_extract(d2) {
            Some((_, l)) => d2.skip(l as int),
            None => d2,
        };
        D::lemma_extract_len(d3);
        let d4 = match D::spec_extract(d3) {
            Some((_, l)) => d3.skip(l as int),
            None => d3,
        };
        E::lemma_extract_len(d4);
        let d5 = match E::spec_extract(d4) {
            Some((_, l)) => d4.skip(l as int),
            None => d4,
        };
        F::lemma_extract_len(d5);
        let d6 = match F::spec_extract(d5) {
            Some((_, l)) => d5.skip(l as int),
            None => d5,
        };
        G::lemma_extract_len(d6);
        let d7 = match G::spec_extract(d6) {
            Some((_, l)) => d6.skip(l as int),
            None => d6,
        };
        H::lemma_extract_len(d7);
        let d8 = match H::spec_extract(d7) {
            Some((_, l)) => d7.skip(l as int),
            None => d7,
        };
        I::lemma_extract_len(d8);
    }

    fn min_length() -> (r: usize) {
        A::min_length() + B::min_length() + C::min_length() + D::min_length() + E::min_length() + F::min_length() + G::min_length() + H::min_length() + I::min_length()
    }

    fn max_length() -> (r: Option<usize>) {
        let am = match A::max_length() {
            Some(m) => m,
            None => return None,
        };
        let bm = match B::max_length() {
            Some(m) => m,
            None => return None,
        };
        let cm = match C::max_length() {
            Some(m) => m,
            None => return None,
        };
        let dm = match D::max_length() {
            Some(m) => m,
            None => return None,
        };
        let em = match E::max_length() {
            Some(m) => m,
            None => return None,
        };
        let fm = match F::max_length() {
            Some(m) => m,
            None => return None,
        };
        let gm = match G::max_length() {
            Some(m) => m,
            None => return None,
        };
        let hm = match H::max_length() {
            Some(m) => m,
            None => return None,
        };
        let im = match I::max_length() {
            Some(m) => m,
            None => return None,
        };
        Some(am + bm + cm + dm + em + fm + gm + hm + im)
    }

    fn extract(data: &[u8]) -> (r: Option<(Self, usize)>) {
        let total = data.len();
        let d0 = data;
        let (v0, l0) = match A::extract(d0) {
            Some(p) => p,
            None => return None,
        };
        proof {
            A::lemma_extract_len(d0@);
            assert(l0 <= total);
        }
        let d1 = skip_bytes(d0, l0);
        let (v1, l1) = match B::extract(d1) {
            Some(p) => p,
            None => return None,
        };
        proof {
            B::lemma_extract_len(d1@);
            assert(d1@.len() == data@.len() - (l0));
            assert(l0 + l1 <= total);
        }
        let d2 = skip_bytes(d1, l1);
        let (v2, l2) = match C::extract(d2) {
            Some(p) => p,
            None => return None,
        };
        proof {
            C::lemma_extract_len(d2@);
            assert(d2@.len() == data@.len() - (l0 + l1));
            assert(l0 + l1 + l2 <= total);
        }
        let d3 = skip_bytes(d2, l2);
        let (v3, l3) = match D::extract(d3) {
            Some(p) => p,
            None => return None,
        };
        proof {
            D::lemma_extract_len(d3@);
            assert(d3@.len() == data@.len() - (l0 + l1 + l2));
            assert(l0 + l1 + l2 + l3 <= total);
        }
        let d4 = skip_bytes(d3, l3);
        let (v4, l4) = match E::extract(d4) {
            Some(p) => p,
            None => return None,
        };
        proof {
            E::lemma_extract_len(d4@);
            assert(d4@.len() == data@.len() - (l0 + l1 + l2 + l3));
            assert(l0 + l1 + l2 + l3 + l4 <= total);
        }
        let d5 = skip_bytes(d4, l4);
        let (v5, l5) = match F::extract(d5) {
            Some(p) => p,
            None => return None,
        };
        proof {
            F::lemma_extract_len(d5@);
            assert(d5@.len() == data@.len() - (l0 + l1 + l2 + l3 + l4));
            assert(l0 + l1 + l2 + l3 + l4 + l5 <= total);
        }
        let d6 = skip_bytes(d5, l5);
        let (v6, l6) = match G::extract(d6) {
            Some(p) => p,
            None => return None,
        };
        proof {
            G::lemma_extract_len(d6@);
            assert(d6@.len() == data@.len() - (l0 + l1 + l2 + l3 + l4 + l5));
            assert(l0 + l1 + l2 + l3 + l4 + l5 + l6 <= total);
        }
        let d7 = skip_bytes(d6, l6);
        let (v7, l7) = match H::extract(d7) {
            Some(p) => p,
            None => return None,
        };
        proof {
            H::lemma_extract_len(d7@);
            assert(d7@.len() == data@.len() - (l0 + l1 + l2 + l3 + l4 + l5 + l6));
            assert(l0 + l1 + l2 + l3 + l4 + l5 + l6 + l7 <= total);
        }
        let d8 = skip_bytes(d7, l7);
        let (v8, l8) = match I::extract(d8) {
            Some(p) => p,
            None => return None,
        };
        proof {
            I::lemma_extract_len(d8@);
            assert(d8@.len() == data@.len() - (l0 + l1 + l2 + l3 + l4 + l5 + l6 + l7));
            assert(l0 + l1 + l2 + l3 + l4 + l5 + l6 + l7 + l8 <= total);
        }
        Some(((v0, v1, v2, v3, v4, v5, v6, v7, v8), l0 + l1 + l2 + l3 + l4 + l5 + l6 + l7 + l8))
    }
}

} // verus!

verus! {

impl<A: ByteCopy, B: ByteCopy, C: ByteCopy, D: ByteCopy, E: ByteCopy, F: ByteCopy, G: ByteCopy, H: ByteCopy, I: ByteCopy, J: ByteCopy> ByteCopy for (A, B, C, D, E, F, G, H, I, J) {
    open spec fn spec_min_length() -> nat {
        A::spec_min_length() + B::spec_min_length() + C::spec_min_length() + D::spec_min_length() + E::spec_min_length() + F::spec_min_length() + G::spec_min_length() + H::spec_min_length() + I::spec_min_length() + J::spec_min_length()
    }

    open spec fn spec_max_length() -> Option<nat> {
        if A::spec_max_length() is Some && B::spec_max_length() is Some && C::spec_max_length() is Some && D::spec_max_length() is Some && E::spec_max_length() is Some && F::spec_max_length() is Some && G::spec_max_length() is Some && H::spec_max_length() is Some && I::spec_max_length() is Some && J::spec_max_length() is Some {
            Some(A::spec_max_length().unwrap() + B::spec_max_length().unwrap() + C::spec_max_length().unwrap() + D::spec_max_length().unwrap() + E::spec_max_length().unwrap() + F::spec_max_length().unwrap() + G::spec_max_length().unwrap() + H::spec_max_length().unwrap() + I::spec_max_length().unwrap() + J::spec_max_length().unwrap())
        } else {
            None
        }
    }

    open spec fn spec_lengths_fit() -> bool {
        A::spec_lengths_fit()
        && B::spec_lengths_fit()
        && C::spec_lengths_fit()
        && D::spec_lengths_fit()
        && E::spec_lengths_fit()
        && F::spec_lengths_fit()
        && G::spec_lengths_fit()
        && H::spec_lengths_fit()
        && I::spec_lengths_fit()
        && J::spec_lengths_fit()
        && Self::spec_min_length() <= usize::MAX
        && (Self::spec_max_length() matches Some(m) ==> m <= usize::MAX)
    }

    open spec fn spec_extract(data: Seq<u8>) -> Option<(Self, nat)> {
        let d0 = data;
        match A::spec_extract(d0) {
            None => None,
            Some((v0, l0)) => {
                let d1 = d0.skip(l0 as int);
                match B::spec_extract(d1) {
                    None => None,
                    Some((v1, l1)) => {
                        let d2 = d1.skip(l1 as int);
                        match C::spec_extract(d2) {
                            None => None,
                            Some((v2, l2)) => {
                                let d3 = d2.skip(l2 as int);
                                match D::spec_extract(d3) {
                                    None => None,
                                    Some((v3, l3)) => {
                                        let d4 = d3.skip(l3 as int);
                                        match E::spec_extract(d4) {
                                            None => None,
                                            Some((v4, l4)) => {
                                                let d5 = d4.skip(l4 as int);
                                                match F::spec_extract(d5) {
                                                    None => None,
                                                    Some((v5, l5)) => {
                                                        let d6 = d5.skip(l5 as int);
                                                        match G::spec_extract(d6) {
                                                            None => None,
                                                            Some((v6, l6)) => {
                                                                let d7 = d6.skip(l6 as int);
                                                                match H::spec_extract(d7) {
                                                                    None => None,
                                                                    Some((v7, l7)) => {
                                                                        let d8 = d7.skip(l7 as int);
                                                                        match I::spec_extract(d8) {
                                                                            None => None,
                                                                            Some((v8, l8)) => {
                                                                                let d9 = d8.skip(l8 as int);
                                                                                match J::spec_extract(d9) {
                                                                                    None => None,
                                                                                    Some((v9, l9)) => {
                                                                                        Some(((v0, v1, v2, v3, v4, v5, v6, v7, v8, v9), l0 + l1 + l2 + l3 + l4 + l5 + l6 + l7 + l8 + l9))
                                                                                    },
                                                                                }
                                                                            },
                                                                        }
                                                                    },
                                                                }
                                                            },
                                                        }
                                                    },
                                                }
                                            },
                                        }
                                    },
                                }
                            },
                        }
                    },
                }
            },
        }
    }

    open spec fn spec_fixed() -> bool {
        A::spec_fixed() && B::spec_fixed() && C::spec_fixed() && D::spec_fixed() && E::spec_fixed() && F::spec_fixed() && G::spec_fixed() && H::spec_fixed() && I::spec_fixed() && J::spec_fixed()
    }

    proof fn lemma_fixed_extract(data: Seq<u8>) {
        let d0 = data;
        A::lemma_fixed_extract(d0);
        let d1 = d0.skip(A::spec_min_length() as int);
        B::lemma_fixed_extract(d1);
        let d2 = d1.skip(B::spec_min_length() as int);
        C::lemma_fixed_extract(d2);
        let d3 = d2.skip(C::spec_min_length() as int);
        D::lemma_fixed_extract(d3);
        let d4 = d3.skip(D::spec_min_length() as int);
        E::lemma_fixed_extract(d4);
        let d5 = d4.skip(E::spec_min_length() as int);
        F::lemma_fixed_extract(d5);
        let d6 = d5.skip(F::spec_min_length() as int);
        G::lemma_fixed_extract(d6);
        let d7 = d6.skip(G::spec_min_length() as int);
        H::lemma_fixed_extract(d7);
        let d8 = d7.skip(H::spec_min_length() as int);
        I::lemma_fixed_extract(d8);
        let d9 = d8.skip(I::spec_min_length() as int);
        J::lemma_fixed_extract(d9);
    }

    proof fn lemma_extract_len(data: Seq<u8>) {
        let d0 = data;
        A::lemma_extract_len(d0);
        let d1 = match A::spec_extract(d0) {
            Some((_, l)) => d0.skip(l as int),
            None => d0,
        };
        B::lemma_extract_len(d1);
        let d2 = match B::spec_extract(d1) {
            Some((_, l)) => d1.skip(l as int),
            None => d1,
        };
        C::lemma_extract_len(d2);
        let d3 = match C::spec_extract(d2) {
            Some((_, l)) => d2.skip(l as int),
            None => d2,
        };
        D::lemma_extract_len(d3);
        let d4 = match D::spec_extract(d3) {
            Some((_, l)) => d3.skip(l as int),
            None => d3,
        };
        E::lemma_extract_len(d4);
        let d5 = match E::spec_extract(d4) {
            Some((_, l)) => d4.skip(l as int),
            None => d4,
        };
        F::lemma_extract_len(d5);
        let d6 = match F::spec_extract(d5) {
            Some((_, l)) => d5.skip(l as int),
            None => d5,
        };
        G::lemma_extract_len(d6);
        let d7 = match G::spec_extract(d6) {
            Some((_, l)) => d6.skip(l as int),
            None => d6,
        };
        H::lemma_extract_len(d7);
        let d8 = match H::spec_extract(d7) {
            Some((_, l)) => d7.skip(l as int),
            None => d7,
        };
        I::lemma_extract_len(d8);
        let d9 = match I::spec_extract(d8) {
            Some((_, l)) => d8.skip(l as int),
            None => d8,
        };
        J::lemma_extract_len(d9);
    }

    fn min_length() -> (r: usize) {
        A::min_length() + B::min_length() + C::min_length() + D::min_length() + E::min_length() + F::min_length() + G::min_length() + H::min_length() + I::min_length() + J::min_length()
    }

    fn max_length() -> (r: Option<usize>) {
        let am = match A::max_length() {
            Some(m) => m,
            None => return None,
        };
        let bm = match B::max_length() {
            Some(m) => m,
            None => return None,
        };
        let cm = match C::max_length() {
            Some(m) => m,
            None => return None,
        };
        let dm = match D::max_length() {
            Some(m) => m,
            None => return None,
        };
        let em = match E::max_length() {
            Some(m) => m,
            None => return None,
        };
        let fm = match F::max_length() {
            Some(m) => m,
            None => return None,
        };
        let gm = match G::max_length() {
            Some(m) => m,
            None => return None,
        };
        let hm = match H::max_length() {
            Some(m) => m,
            None => return None,
        };
        let im = match I::max_length() {
            Some(m) => m,
            None => return None,
        };
        let jm = match J::max_length() {
            Some(m) => m,
            None => return None,
        };
        Some(am + bm + cm + dm + em + fm + gm + hm + im + jm)
    }

    fn extract(data: &[u8]) -> (r: Option<(Self, usize)>) {
        let total = data.len();
        let d0 = data;
        let (v0, l0) = match A::extract(d0) {
            Some(p) => p,
            None => return None,
        };
        proof {
            A::lemma_extract_len(d0@);
            assert(l0 <= total);
        }
        let d1 = skip_bytes(d0, l0);
        let (v1, l1) = match B::extract(d1) {
            Some(p) => p,
            None => return None,
        };
        proof {
            B::lemma_extract_len(d1@);
            assert(d1@.len() == data@.len() - (l0));
            assert(l0 + l1 <= total);
        }
        let d2 = skip_bytes(d1, l1);
        let (v2, l2) = match C::extract(d2) {
            Some(p) => p,
            None => return None,
        };
        proof {
            C::lemma_extract_len(d2@);
            assert(d2@.len() == data@.len() - (l0 + l1));
            assert(l0 + l1 + l2 <= total);
        }
        let d3 = skip_bytes(d2, l2);
        let (v3, l3) = match D::extract(d3) {
            Some(p) => p,
            None => return None,
        };
        proof {
            D::lemma_extract_len(d3@);
            assert(d3@.len() == data@.len() - (l0 + l1 + l2));
            assert(l0 + l1 + l2 + l3 <= total);
        }
        let d4 = skip_bytes(d3, l3);
        let (v4, l4) = match E::extract(d4) {
            Some(p) => p,
            None => return None,
        };
        proof {
            E::lemma_extract_len(d4@);
            assert(d4@.len() == data@.len() - (l0 + l1 + l2 + l3));
            assert(l0 + l1 + l2 + l3 + l4 <= total);
        }
        let d5 = skip_bytes(d4, l4);
        let (v5, l5) = match F::extract(d5) {
            Some(p) => p,
            None => return None,
        };
        proof {
            F::lemma_extract_len(d5@);
            assert(d5@.len() == data@.len() - (l0 + l1 + l2 + l3 + l4));
            assert(l0 + l1 + l2 + l3 + l4 + l5 <= total);
        }
        let d6 = skip_bytes(d5, l5);
        let (v6, l6) = match G::extract(d6) {
            Some(p) => p,
            None => return None,
        };
        proof {
            G::lemma_extract_len(d6@);
            assert(d6@.len() == data@.len() - (l0 + l1 + l2 + l3 + l4 + l5));
            assert(l0 + l1 + l2 + l3 + l4 + l5 + l6 <= total);
        }
        let d7 = skip_bytes(d6, l6);
        let (v7, l7) = match H::extract(d7) {
            Some(p) => p,
            None => return None,
        };
        proof {
            H::lemma_extract_len(d7@);
            assert(d7@.len() == data@.len() - (l0 + l1 + l2 + l3 + l4 + l5 + l6));
            assert(l0 + l1 + l2 + l3 + l4 + l5 + l6 + l7 <= total);
        }
        let d8 = skip_bytes(d7, l7);
        let (v8, l8) = match I::extract(d8) {
            Some(p) => p,
            None => return None,
        };
        proof {
            I::lemma_extract_len(d8@);
            assert(d8@.len() == data@.len() - (l0 + l1 + l2 + l3 + l4 + l5 + l6 + l7));
            assert(l0 + l1 + l2 + l3 + l4 + l5 + l6 + l7 + l8 <= total);
        }
        let d9 = skip_bytes(d8, l8);
        let (v9, l9) = match J::extract(d9) {
            Some(p) => p,
            None => return None,
        };
        proof {
            J::lemma_extract_len(d9@);
            assert(d9@.len() == data@.len() - (l0 + l1 + l2 + l3 + l4 + l5 + l6 + l7 + l8));
            assert(l0 + l1 + l2 + l3 + l4 + l5 + l6 + l7 + l8 + l9 <= total);
        }
        Some(((v0, v1, v2, v3, v4, v5, v6, v7, v8, v9), l0 + l1 + l2 + l3 + l4 + l5 + l6 + l7 + l8 + l9))
    }
}

} // verus!

verus! {

/// Reads `k` values, one after another, from `data`; `last` is how many bytes the value before
/// them took, counted from the front of `data`. Each value is read from the bytes left after
/// the one before it, even where none are left.
pub open spec fn extract_items<T: ByteCopy>(data: Seq<u8>, last: nat, k: nat) -> Option<(Seq<T>, nat)>
    decreases k,
{
    if k == 0 {
        Some((seq![], 0))
    } else {
        let d = data.skip(last as int);
        match T::spec_extract(d) {
            None => None,
            Some((v, n)) => match extract_items::<T>(d, n, (k - 1) as nat) {
                None => None,
                Some((vs, c)) => Some((seq![v] + vs, n + c)),
            },
        }
    }
}

pub proof fn lemma_extract_items<T: ByteCopy>(data: Seq<u8>, last: nat, k: nat)
    requires
        last <= data.len(),
    ensures
        extract_items::<T>(data, last, k) matches Some((vs, c)) ==> vs.len() == k && (k == 0 ==> c
            == 0) && (k > 0 ==> last + c <= data.len()),
    decreases k,
{
    if k > 0 {
        let d = data.skip(last as int);
        T::lemma_extract_len(d);
        match T::spec_extract(d) {
            Some((v, n)) => {
                lemma_extract_items::<T>(d, n, (k - 1) as nat);
            },
            None => {},
        }
    }
}

/// Reading `k` items of a fixed length from `data`, the first of them after the first `last`
/// bytes, succeeds where the bytes suffice, and takes `k` times that length after `last`.
proof fn lemma_fixed_items<T: ByteCopy>(data: Seq<u8>, last: nat, k: nat)
    requires
        T::spec_fixed(),
        k > 0 ==> last + k * T::spec_min_length() <= data.len(),
    ensures
        extract_items::<T>(data, last, k) matches Some((_, c)) && c == k * T::spec_min_length(),
    decreases k,
{
    if k > 0 {
        let m = T::spec_min_length();
        let d = data.skip(last as int);
        assert(m <= k * m) by (nonlinear_arith)
            requires
                k >= 1,
        ;
        T::lemma_fixed_extract(d);
        assert(k * m == m + (k - 1) * m) by (nonlinear_arith);
        lemma_fixed_items::<T>(d, m, (k - 1) as nat);
    }
}

/// Reading `k` items of a fixed length `m` from `data`, the first after its first `last` bytes,
/// reads them in order: item `j` is what its type reads from the bytes after the first
/// `last + j * m`, and the read takes `k * m` bytes after `last`.
proof fn lemma_fixed_items_in_order<T: ByteCopy>(data: Seq<u8>, last: nat, k: nat)
    requires
        T::spec_fixed(),
        last + k * T::spec_min_length() <= data.len(),
    ensures
        extract_items::<T>(data, last, k) matches Some((vs, c)) && c == k * T::spec_min_length()
            && vs.len() == k && forall|j: int|
            0 <= j < k ==> #[trigger] vs[j] == T::spec_extract(
                data.skip(last + j * T::spec_min_length()),
            ).unwrap().0,
    decreases k,
{
    lemma_fixed_items::<T>(data, last, k);
    lemma_extract_items::<T>(data, last, k);
    if k > 0 {
        let m = T::spec_min_length();
        let d = data.skip(last as int);
        assert(m <= k * m) by (nonlinear_arith)
            requires
                k >= 1,
        ;
        assert(k * m == m + (k - 1) * m) by (nonlinear_arith);
        T::lemma_fixed_extract(d);
        lemma_fixed_items_in_order::<T>(d, m, (k - 1) as nat);
        let (v, n) = T::spec_extract(d).unwrap();
        let (rest, c2) = extract_items::<T>(d, m, (k - 1) as nat).unwrap();
        let vs = seq![v] + rest;
        assert forall|j: int| 0 <= j < k implies #[trigger] vs[j] == T::spec_extract(
            data.skip(last + j * m),
        ).unwrap().0 by {
            if j == 0 {
                assert(data.skip(last + j * m) =~= d);
            } else {
                assert(vs[j] == rest[j - 1]);
                assert(m + (j - 1) * m == j * m) by (nonlinear_arith);
                assert(j * m <= k * m) by (nonlinear_arith)
                    requires
                        j <= k,
                ;
                assert(d.skip(m + (j - 1) * m) =~= data.skip(last + j * m));
            }
        }
    }
}

/// An array of `LEN` values of a fixed length `m` reads its items in order: item `j` comes from
/// the bytes starting at `j * m`, and the whole read takes `LEN * m` bytes.
pub proof fn law_array_reads_in_order<T: ByteCopy, const LEN: usize>(data: Seq<u8>)
    requires
        T::spec_fixed(),
        LEN * T::spec_min_length() <= data.len(),
    ensures
        extract_items::<T>(data, 0, LEN as nat) matches Some((items, c)) && c == LEN * T::spec_min_length()
            && items.len() == LEN && forall|j: int|
            0 <= j < LEN ==> #[trigger] items[j] == T::spec_extract(
                data.skip(j * T::spec_min_length()),
            ).unwrap().0,
        <[T; LEN]>::spec_extract(data) == Some((
            items_to_array::<T, LEN>(extract_items::<T>(data, 0, LEN as nat).unwrap().0),
            (LEN * T::spec_min_length()) as nat,
        )),
{
    lemma_fixed_items_in_order::<T>(data, 0, LEN as nat);
}

/// The array whose items are `items`.
pub open spec fn items_to_array<T, const LEN: usize>(items: Seq<T>) -> [T; LEN] {
    choose|a: [T; LEN]| a@ == items
}

/// Collects exactly `LEN` items into an array, in order, by way of `arrayvec::ArrayVec`.
/// Trusted: collecting into an `ArrayVec` keeps the items in order; `ArrayVec::new` panics on a
/// capacity above `u32::MAX` (on targets whose `usize` is wider), and collecting more items than
/// the capacity panics, so both are excluded; `into_inner` hands the array back when the
/// `ArrayVec` is full.
#[verifier::external_body]
fn array_from_items<T, const LEN: usize>(items: Vec<T>) -> (r: [T; LEN])
    requires
        LEN <= u32::MAX,
        items@.len() == LEN,
    ensures
        r@ == items@,
{
    let collected: arrayvec::ArrayVec<T, LEN> = items.into_iter().collect();
    collected.into_inner().ok().unwrap()
}

impl<T: ByteCopy, const LEN: usize> ByteCopy for [T; LEN] {
    open spec fn spec_min_length() -> nat {
        (T::spec_min_length() * LEN) as nat
    }

    open spec fn spec_max_length() -> Option<nat> {
        match T::spec_max_length() {
            Some(m) => Some((m * LEN) as nat),
            None => None,
        }
    }

    open spec fn spec_lengths_fit() -> bool {
        &&& T::spec_lengths_fit()
        &&& LEN <= u32::MAX
        &&& T::spec_min_length() * LEN <= usize::MAX
        &&& (T::spec_max_length() matches Some(m) ==> m * LEN <= usize::MAX)
    }

    open spec fn spec_extract(data: Seq<u8>) -> Option<([T; LEN], nat)> {
        match extract_items::<T>(data, 0, LEN as nat) {
            Some((vs, c)) => Some((items_to_array::<T, LEN>(vs), c)),
            None => None,
        }
    }

    proof fn lemma_extract_len(data: Seq<u8>) {
        lemma_extract_items::<T>(data, 0, LEN as nat);
    }

    open spec fn spec_fixed() -> bool {
        T::spec_fixed()
    }

    proof fn lemma_fixed_extract(data: Seq<u8>) {
        let m = T::spec_min_length();
        assert(LEN * m == m * LEN) by (nonlinear_arith);
        lemma_fixed_items::<T>(data, 0, LEN as nat);
        T::lemma_fixed_extract(Seq::new(m, |i: int| 0u8));
    }

    fn min_length() -> (r: usize) {
        let m = T::min_length();
        assert(m * LEN <= usize::MAX);
        m * LEN
    }

    fn max_length() -> (r: Option<usize>) {
        match T::max_length() {
            Some(m) => {
                assert(m * LEN <= usize::MAX);
                Some(m * LEN)
            },
            None => None,
        }
    }

    fn extract(data: &[u8]) -> (r: Option<([T; LEN], usize)>) {
        let mut items: Vec<T> = Vec::new();
        let mut rest: &[u8] = data;
        let mut last: usize = 0;
        let mut consumed: usize = 0;
        let mut i: usize = 0;
        let ghost target = extract_items::<T>(data@, 0, LEN as nat);
        let total = data.len();
        assert(data@.skip(0) == data@);
        while i < LEN
            invariant
                total == data@.len(),
                T::spec_lengths_fit(),
                LEN <= u32::MAX,
                i <= LEN,
                items@.len() == i,
                last <= consumed <= data@.len(),
                rest@ == data@.skip(consumed - last),
                target == extract_items::<T>(data@, 0, LEN as nat),
                target == match extract_items::<T>(rest@, last as nat, (LEN - i) as nat) {
                    None => None,
                    Some((vs, c)) => Some((items@ + vs, (consumed + c) as nat)),
                },
            decreases LEN - i,
        {
            let ghost before = items@;
            let d = skip_bytes(rest, last);
            assert(d@ == data@.skip(consumed as int));
            match T::extract(d) {
                Some((v, n)) => {
                    proof {
                        T::lemma_extract_len(d@);
                    }
                    items.push(v);
                    assert(items@ == before + seq![v]);
                    assert forall|vs: Seq<T>| #![auto] before + (seq![v] + vs) == items@ + vs by {
                        assert(before + (seq![v] + vs) =~= items@ + vs);
                    }
                    consumed = consumed + n;
                    last = n;
                    rest = d;
                },
                None => {
                    return None;
                },
            }
            i += 1;
        }
        assert(items@ + seq![] == items@);
        let ghost vs = items@;
        let array = array_from_items::<T, LEN>(items);
        proof {
            broadcast use vstd::array::axiom_array_ext_equal;

            let chosen = items_to_array::<T, LEN>(vs);
            assert(exists|a: [T; LEN]| a@ == vs);
            assert(chosen =~= array);
        }
        Some((array, consumed))
    }
}

/// A value of a type that takes a fixed number of bytes, as every type built from `u8` by tuples
/// and arrays does (parts of no bytes included), is read from the front of any run of bytes at
/// least that long, and the read takes exactly that many bytes: between the least and the most
/// length of such a type, a read always succeeds.
pub proof fn law_fixed_length_read<T: ByteCopy>(data: Seq<u8>)
    requires
        T::spec_fixed(),
        T::spec_min_length() <= data.len(),
    ensures
        T::spec_max_length() == Some(T::spec_min_length()),
        T::spec_extract(data) matches Some((_, n)) && n == T::spec_min_length(),
{
    T::lemma_fixed_extract(data);
}

/// A boolean lifted to a type, so that it can stand in a trait bound; no value of it is ever made.
pub struct Lift<const EXPRESSION: bool>(());

/// Holds of `Lift<true>` alone.
pub trait True: predicate_sealed::TSealed {}

impl True for Lift<true> {}

/// Holds of `Lift<false>` alone.
pub trait False: predicate_sealed::FSealed {}

impl False for Lift<false> {}

/// A value that can be read from exactly `LEN` bytes.
pub trait ByteCopySized<const LEN: usize>: Sized {
    /// Whether a value can be read from `data`, the type being one this library can read.
    spec fn spec_readable(data: Seq<u8>) -> bool;

    /// The value read from `data`.
    spec fn spec_extract_sized(data: Seq<u8>) -> Self;

    fn extract(data: [u8; LEN]) -> (r: Self)
        requires
            Self::spec_readable(data@),
        ensures
            r == Self::spec_extract_sized(data@),
    ;
}

impl<const LEN: usize, T: ByteCopy> ByteCopySized<LEN> for T {
    open spec fn spec_readable(data: Seq<u8>) -> bool {
        T::spec_lengths_fit() && T::spec_extract(data) is Some
    }

    open spec fn spec_extract_sized(data: Seq<u8>) -> T {
        T::spec_extract(data).unwrap().0
    }

    fn extract(data: [u8; LEN]) -> (r: T) {
        <T as ByteCopy>::extract(data.as_slice()).unwrap().0
    }
}

} // verus!

verus! {

/// A one-part tuple reads what its part reads.
pub proof fn law_tuple1_reads_its_part<A: ByteCopy>(data: Seq<u8>)
    ensures
        <(A,)>::spec_extract(data) == match A::spec_extract(data) {
            None => None,
            Some((a, n)) => Some(((a,), n)),
        },
{
}

/// A tuple of 2 parts reads its first part from the front of the bytes, then the remaining
/// parts, as a tuple of their own, from the bytes after it; the lengths add up.
pub proof fn law_tuple2_reads_in_order<A: ByteCopy, B: ByteCopy>(data: Seq<u8>)
    ensures
        <(A, B)>::spec_extract(data) == match A::spec_extract(data) {
            None => None,
            Some((va, n)) => match <(B,)>::spec_extract(data.skip(n as int)) {
                None => None,
                Some(((vb,), m)) => Some(((va, vb), n + m)),
            },
        },
{
}

/// A tuple of 3 parts reads its first part from the front of the bytes, then the remaining
/// parts, as a tuple of their own, from the bytes after it; the lengths add up.
pub proof fn law_tuple3_reads_in_order<A: ByteCopy, B: ByteCopy, C: ByteCopy>(data: Seq<u8>)
    ensures
        <(A, B, C)>::spec_extract(data) == match A::spec_extract(data) {
            None => None,
            Some((va, n)) => match <(B, C)>::spec_extract(data.skip(n as int)) {
                None => None,
                Some(((vb, vc), m)) => Some(((va, vb, vc), n + m)),
            },
        },
{
}

/// A tuple of 4 parts reads its first part from the front of the bytes, then the remaining
/// parts, as a tuple of their own, from the bytes after it; the lengths add up.
pub proof fn law_tuple4_reads_in_order<A: ByteCopy, B: ByteCopy, C: ByteCopy, D: ByteCopy>(data: Seq<u8>)
    ensures
        <(A, B, C, D)>::spec_extract(data) == match A::spec_extract(data) {
            None => None,
            Some((va, n)) => match <(B, C, D)>::spec_extract(data.skip(n as int)) {
                None => None,
                Some(((vb, vc, vd), m)) => Some(((va, vb, vc, vd), n + m)),
            },
        },
{
}

/// A tuple of 5 parts reads its first part from the front of the bytes, then the remaining
/// parts, as a tuple of their own, from the bytes after it; the lengths add up.
pub proof fn law_tuple5_reads_in_order<A: ByteCopy, B: ByteCopy, C: ByteCopy, D: ByteCopy, E: ByteCopy>(data: Seq<u8>)
    ensures
        <(A, B, C, D, E)>::spec_extract(data) == match A::spec_extract(data) {
            None => None,
            Some((va, n)) => match <(B, C, D, E)>::spec_extract(data.skip(n as int)) {
                None => None,
                Some(((vb, vc, vd, ve), m)) => Some(((va, vb, vc, vd, ve), n + m)),
            },
        },
{
}

/// A tuple of 6 parts reads its first part from the front of the bytes, then the remaining
/// parts, as a tuple of their own, from the bytes after it; the lengths add up.
pub proof fn law_tuple6_reads_in_order<A: ByteCopy, B: ByteCopy, C: ByteCopy, D: ByteCopy, E: ByteCopy, F: ByteCopy>(data: Seq<u8>)
    ensures
        <(A, B, C, D, E, F)>::spec_extract(data) == match A::spec_extract(data) {
            None => None,
            Some((va, n)) => match <(B, C, D, E, F)>::spec_extract(data.skip(n as int)) {
                None => None,
                Some(((vb, vc, vd, ve, vf), m)) => Some(((va, vb, vc, vd, ve, vf), n + m)),
            },
        },
{
}

/// A tuple of 7 parts reads its first part from the front of the bytes, then the remaining
/// parts, as a tuple of their own, from the bytes after it; the lengths add up.
pub proof fn law_tuple7_reads_in_order<A: ByteCopy, B: ByteCopy, C: ByteCopy, D: ByteCopy, E: ByteCopy, F: ByteCopy, G: ByteCopy>(data: Seq<u8>)
    ensures
        <(A, B, C, D, E, F, G)>::spec_extract(data) == match A::spec_extract(data) {
            None => None,
            Some((va, n)) => match <(B, C, D, E, F, G)>::spec_extract(data.skip(n as int)) {
                None => None,
                Some(((vb, vc, vd, ve, vf, vg), m)) => Some(((va, vb, vc, vd, ve, vf, vg), n + m)),
            },
        },
{
}

/// A tuple of 8 parts reads its first part from the front of the bytes, then the remaining
/// parts, as a tuple of their own, from the bytes after it; the lengths add up.
pub proof fn law_tuple8_reads_in_order<A: ByteCopy, B: ByteCopy, C: ByteCopy, D: ByteCopy, E: ByteCopy, F: ByteCopy, G: ByteCopy, H: ByteCopy>(data: Seq<u8>)
    ensures
        <(A, B, C, D, E, F, G, H)>::spec_extract(data) == match A::spec_extract(data) {
            None => None,
            Some((va, n)) => match <(B, C, D, E, F, G, H)>::spec_extract(data.skip(n as int)) {
                None => None,
                Some(((vb, vc, vd, ve, vf, vg, vh), m)) => Some(((va, vb, vc, vd, ve, vf, vg, vh), n + m)),
            },
        },
{
}

/// A tuple of 9 parts reads its first part from the front of the bytes, then the remaining
/// parts, as a tuple of their own, from the bytes after it; the lengths add up.
pub proof fn law_tuple9_reads_in_order<A: ByteCopy, B: ByteCopy, C: ByteCopy, D: ByteCopy, E: ByteCopy, F: ByteCopy, G: ByteCopy, H: ByteCopy, I: ByteCopy>(data: Seq<u8>)
    ensures
        <(A, B, C, D, E, F, G, H, I)>::spec_extract(data) == match A::spec_extract(data) {
            None => None,
            Some((va, n)) => match <(B, C, D, E, F, G, H, I)>::spec_extract(data.skip(n as int)) {
                None => None,
                Some(((vb, vc, vd, ve, vf, vg, vh, vi), m)) => Some(((va, vb, vc, vd, ve, vf, vg, vh, vi), n + m)),
            },
        },
{
}

/// A tuple of 10 parts reads its first part from the front of the bytes, then the remaining
/// parts, as a tuple of their own, from the bytes after it; the lengths add up.
pub proof fn law_tuple10_reads_in_order<A: ByteCopy, B: ByteCopy, C: ByteCopy, D: ByteCopy, E: ByteCopy, F: ByteCopy, G: ByteCopy, H: ByteCopy, I: ByteCopy, J: ByteCopy>(data: Seq<u8>)
    ensures
        <(A, B, C, D, E, F, G, H, I, J)>::spec_extract(data) == match A::spec_extract(data) {
            None => None,
            Some((va, n)) => match <(B, C, D, E, F, G, H, I, J)>::spec_extract(data.skip(n as int)) {
                None => None,
                Some(((vb, vc, vd, ve, vf, vg, vh, vi, vj), m)) => Some(((va, vb, vc, vd, ve, vf, vg, vh, vi, vj), n + m)),
            },
        },
{
}

} // verus!
