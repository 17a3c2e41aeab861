//! Choosing the transfer mode of a file from its first bytes.
use vstd::prelude::*;
use vstd::utf8::valid_utf8;

verus! {

/// How many bytes of a file are looked at to choose its transfer mode.
pub const SAMPLE_LEN: usize = 16;

/// How the transport sends a file.
#[derive(Debug, Clone, Copy, PartialEq, Eq, Structural)]
pub enum TransferMode {
    Text,
    Binary,
}

/// Relies on `std::str::from_utf8`: it succeeds exactly on valid UTF-8.
#[verifier::external_body]
fn is_utf8(bytes: &[u8]) -> (r: bool)
    ensures
        r == valid_utf8(bytes@),
{
    std::str::from_utf8(bytes).is_ok()
}

/// The transfer mode for a file whose first bytes are `sample`: text when the
/// first `SAMPLE_LEN` bytes are valid UTF-8, binary when they are not, and no
/// choice (the mode stays as it was) for a file shorter than that.
pub fn classify(sample: &[u8]) -> (r: Option<TransferMode>)
    ensures
        sample@.len() < SAMPLE_LEN ==> r is None,
        sample@.len() >= SAMPLE_LEN ==> r == Some(
            if valid_utf8(sample@.take(SAMPLE_LEN as int)) {
                TransferMode::Text
            } else {
                TransferMode::Binary
            },
        ),
{
    if sample.len() < SAMPLE_LEN {
        return None;
    }
    let mut head: Vec<u8> = Vec::new();
    let mut i: usize = 0;
    while i < SAMPLE_LEN
        invariant
            i <= SAMPLE_LEN <= sample@.len(),
            head@ == sample@.take(i as int),
        decreases SAMPLE_LEN - i,
    {
        head.push(sample[i]);
        i = i + 1;
        assert(head@ =~= sample@.take(i as int));
    }
    if is_utf8(head.as_slice()) {
        Some(TransferMode::Text)
    } else {
        Some(TransferMode::Binary)
    }
}

} // verus!
