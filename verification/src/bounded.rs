//! The fixed-capacity vectors and strings of `heapless` that the message types hold.
use vstd::prelude::*;
use vstd::std_specs::cmp::PartialEqSpec;

verus! {

/// `heapless::Vec`, a vector of at most `N` items.
#[verifier::external_type_specification]
#[verifier::external_body]
#[verifier::reject_recursive_types(T)]
pub struct ExHeaplessVec<T, const N: usize>(heapless::Vec<T, N>);

/// `heapless::String`, a string of at most `N` bytes.
#[verifier::external_type_specification]
#[verifier::external_body]
pub struct ExHeaplessString<const N: usize>(heapless::String<N>);

/// `v` holds the bytes `s`: it compares equal, by the `==` that `heapless` has for
/// a vector and a slice, to the slices of these bytes and to no others.
pub open spec fn holds<const N: usize>(v: heapless::Vec<u8, N>, s: Seq<u8>) -> bool {
    forall|t: &[u8]| #[trigger] v.eq_spec(t) == (t@ == s)
}

/// `a` and `b` hold the same text: the `==` that `heapless` has for a string and a
/// `str` tells them apart by no `str`.
pub open spec fn same_text<const N: usize>(
    a: heapless::String<N>,
    b: heapless::String<N>,
) -> bool {
    forall|t: &str| #[trigger] a.eq_spec(t) == b.eq_spec(t)
}

/// Calls `heapless::Vec::try_from` on a slice.
///
/// The call succeeds exactly when the slice has no more bytes than the vector has
/// room for, and the vector then holds the bytes of the slice.
#[verifier::external_body]
pub(crate) fn vec_from_slice<const N: usize>(s: &[u8]) -> (r: Result<heapless::Vec<u8, N>, ()>)
    ensures
        match r {
            Ok(v) => s@.len() <= N && holds(v, s@),
            Err(()) => s@.len() > N,
        },
{
    heapless::Vec::try_from(s)
}

/// Calls `heapless::Vec::clone` on a vector of bytes.
///
/// The copy holds what the vector holds.
#[verifier::external_body]
pub(crate) fn clone_vec<const N: usize>(v: &heapless::Vec<u8, N>) -> (r: heapless::Vec<u8, N>)
    ensures
        forall|s: Seq<u8>| #[trigger] holds(r, s) == holds(*v, s),
{
    v.clone()
}

/// Calls `heapless::String::clone`.
///
/// The copy holds the text that the string holds.
#[verifier::external_body]
pub(crate) fn clone_string<const N: usize>(v: &heapless::String<N>) -> (r: heapless::String<N>)
    ensures
        same_text(r, *v),
{
    v.clone()
}

/// Of what a vector holds, it compares equal to the very bytes, and to nothing else.
pub proof fn law_vector_is_its_bytes<const N: usize>(
    v: heapless::Vec<u8, N>,
    s: Seq<u8>,
    t: &[u8],
)
    requires
        holds(v, s),
    ensures
        v.eq_spec(t) <==> t@.len() == s.len() && forall|i: int|
            0 <= i < s.len() ==> #[trigger] t@[i] == s[i],
{
    if t@.len() == s.len() && forall|i: int| 0 <= i < s.len() ==> #[trigger] t@[i] == s[i] {
        assert(t@ =~= s);
    }
}

/// Two strings of the same text compare in the same way with any text.
pub proof fn law_strings_of_one_text<const N: usize>(
    a: heapless::String<N>,
    b: heapless::String<N>,
    t: &str,
)
    requires
        same_text(a, b),
    ensures
        a.eq_spec(t) <==> b.eq_spec(t),
{
}

} // verus!
