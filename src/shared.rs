use vstd::prelude::*;
use std::sync::Arc;

verus! {

/// Relies on `Arc::try_unwrap`: the inner value comes back when this handle is the only
/// strong one; otherwise the handle comes back as it was.
#[verifier::external_body]
pub(crate) fn arc_try_unwrap(a: Arc<Vec<u8>>) -> (r: Result<Vec<u8>, Arc<Vec<u8>>>)
    ensures
        match r {
            Ok(v) => v@ == a@,
            Err(e) => e == a,
        },
{
    Arc::try_unwrap(a)
}

/// Relies on `Arc::ptr_eq`: two handles of one allocation see the same value.
#[verifier::external_body]
pub(crate) fn arc_ptr_eq(a: &Arc<Vec<u8>>, b: &Arc<Vec<u8>>) -> (r: bool)
    ensures
        r ==> a@ == b@,
{
    Arc::ptr_eq(a, b)
}

/// Relies on `Arc::strong_count`: a live handle counts itself.
#[verifier::external_body]
pub(crate) fn arc_strong_count(a: &Arc<Vec<u8>>) -> (r: usize)
    ensures
        r >= 1,
{
    Arc::strong_count(a)
}

/// Relies on `u16::to_ne_bytes`: the host stores numbers either least or most
/// significant byte first.
#[verifier::external_body]
fn native_bytes_of_one() -> (r: [u8; 2])
    ensures
        r@ == seq![1u8, 0u8] || r@ == seq![0u8, 1u8],
{
    1u16.to_ne_bytes()
}

/// Whether the host stores numbers least significant byte first.
pub(crate) fn native_is_little() -> (r: bool) {
    native_bytes_of_one()[0] == 1
}

} // verus!
