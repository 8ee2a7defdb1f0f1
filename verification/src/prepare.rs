//! Preparation: decide how to bring the destination file to the source's
//! length without destroying data that may already be correct.

use vstd::prelude::*;

verus! {

/// What preparation does to the destination file.
#[derive(Clone, Copy, Debug, PartialEq, Eq, Structural)]
pub enum PrepareAction {
    /// The destination does not exist: create it with length `total_size`.
    Create,
    /// The destination exists with the wrong length: resize it to
    /// `total_size`, keeping the bytes in the overlapping range.
    Truncate,
    /// The destination exists with the right length: leave it untouched, so
    /// blocks that are already correct from a prior run are kept.
    Reuse,
}

/// The action that preparation takes, given the destination's length (or
/// `None` when no destination file exists) and the source's length.
pub open spec fn planned_action(destination_len: Option<u64>, total_size: u64) -> PrepareAction {
    match destination_len {
        Option::None => PrepareAction::Create,
        Option::Some(len) => if len == total_size {
            PrepareAction::Reuse
        } else {
            PrepareAction::Truncate
        },
    }
}

/// A sequence of `n` zero bytes: the content of freshly allocated file space.
pub open spec fn zero_bytes(n: int) -> Seq<u8> {
    Seq::new(n as nat, |i: int| 0u8)
}

/// The destination's content after carrying out a preparation action on a
/// destination that held `old_content`.  Creation yields a zero-filled file;
/// a resize keeps the overlapping bytes and zero-fills any extension; reuse
/// keeps the content as it is.
pub open spec fn content_after(
    action: PrepareAction,
    old_content: Seq<u8>,
    total_size: int,
) -> Seq<u8> {
    match action {
        PrepareAction::Create => zero_bytes(total_size),
        PrepareAction::Truncate => if old_content.len() >= total_size {
            old_content.take(total_size)
        } else {
            old_content + zero_bytes(total_size - old_content.len())
        },
        PrepareAction::Reuse => old_content,
    }
}

/// Decides how to prepare the destination.  `destination_len` is the current
/// length of the destination file, or `None` when it does not exist.
pub fn plan_preparation(destination_len: Option<u64>, total_size: u64) -> (r: PrepareAction)
    ensures
        r == planned_action(destination_len, total_size),
        r is Create <==> destination_len is None,
        r is Reuse <==> destination_len == Some(total_size),
        r is Truncate <==> (destination_len is Some && destination_len != Some(total_size)),
{
    match destination_len {
        Option::None => PrepareAction::Create,
        Option::Some(len) => if len == total_size {
            PrepareAction::Reuse
        } else {
            PrepareAction::Truncate
        },
    }
}

/// Length correction: whatever state the destination starts in — absent,
/// too short, too long, or already right — carrying out the planned action
/// leaves it exactly `total_size` bytes long.
pub proof fn lemma_length_correction(destination: Option<Seq<u8>>, total_size: u64)
    requires
        destination matches Some(c) ==> c.len() <= u64::MAX,
    ensures
        ({
            let existing_len = match destination {
                Option::Some(c) => Option::Some(c.len() as u64),
                Option::None => Option::None,
            };
            let old_content = match destination {
                Option::Some(c) => c,
                Option::None => Seq::<u8>::empty(),
            };
            content_after(
                planned_action(existing_len, total_size),
                old_content,
                total_size as int,
            ).len() == total_size
        }),
{
}

} // verus!
