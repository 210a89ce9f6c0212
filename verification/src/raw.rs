//! Fixed-size reads from byte slices, performed by `zerocopy`.
//!
//! The two functions in this module are the only places where the library
//! hands bytes to code that is not verified.  Their contracts are taken on
//! trust; everything built on top of them is proved.
use vstd::prelude::*;
use zerocopy::FromBytes;

verus! {

/// `zerocopy::SizeError`, the error of a read whose source has the wrong
/// length.  The library never looks inside it.
#[verifier::external_type_specification]
#[verifier::external_body]
#[verifier::reject_recursive_types(Src)]
#[verifier::reject_recursive_types(Dst)]
pub struct ExSizeError<Src, Dst: ?Sized>(zerocopy::SizeError<Src, Dst>);

/// Calls `zerocopy::FromBytes::read_from_prefix` for the type `[u8; N]`.
///
/// Trusted: the call succeeds exactly when `source` holds at least `N` bytes,
/// and then yields a copy of the first `N` bytes together with the remainder
/// of `source`.
#[verifier::external_body]
pub(crate) fn read_prefix<'a, const N: usize>(source: &'a [u8]) -> (r: Result<
    ([u8; N], &'a [u8]),
    zerocopy::SizeError<&'a [u8], [u8; N]>,
>)
    ensures
        r is Ok <==> source@.len() >= N,
        r matches Ok((head, rest)) ==> head@ == source@.subrange(0, N as int) && rest@
            == source@.subrange(N as int, source@.len() as int),
{
    <[u8; N]>::read_from_prefix(source)
}

/// Calls `zerocopy::FromBytes::read_from_bytes` for the type `[u8; N]`.
///
/// Trusted: the call succeeds exactly when `source` holds `N` bytes, no more
/// and no fewer, and then yields a copy of them.
#[verifier::external_body]
pub(crate) fn read_exact<'a, const N: usize>(source: &'a [u8]) -> (r: Result<
    [u8; N],
    zerocopy::SizeError<&'a [u8], [u8; N]>,
>)
    ensures
        r is Ok <==> source@.len() == N,
        r matches Ok(record) ==> record@ == source@,
{
    <[u8; N]>::read_from_bytes(source)
}

} // verus!
