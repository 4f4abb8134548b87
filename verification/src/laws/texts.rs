//! How numbers and errors read.

use vstd::prelude::*;

use crate::error::{Error, StorageError};
use crate::group_commit::lock_not_acquired;
use crate::text::{concat2, concat3, decimal, digit, show_u64, show_usize};

verus! {

/// The number that `text` reads as, in decimal.
pub open spec fn read(text: Seq<char>) -> int
    decreases text.len(),
{
    if text.len() == 0 {
        0
    } else {
        10 * read(text.drop_last()) + (text.last() as int - '0' as int)
    }
}

/// Whether `text` consists of decimal digits.
pub open spec fn is_number(text: Seq<char>) -> bool {
    text.len() > 0 && forall|i: int| 0 <= i < text.len() ==> '0' <= #[trigger] text[i] <= '9'
}

proof fn lemma_digit(d: nat)
    requires
        d < 10,
    ensures
        digit(d).len() == 1,
        digit(d)[0] as int == '0' as int + d,
        '0' <= digit(d)[0] <= '9',
{
    reveal_strlit("0");
    reveal_strlit("1");
    reveal_strlit("2");
    reveal_strlit("3");
    reveal_strlit("4");
    reveal_strlit("5");
    reveal_strlit("6");
    reveal_strlit("7");
    reveal_strlit("8");
    reveal_strlit("9");
}

proof fn lemma_decimal(n: nat)
    ensures
        is_number(decimal(n)),
        read(decimal(n)) == n,
        decimal(n).len() > 1 ==> decimal(n)[0] != '0',
        n > 0 ==> decimal(n)[0] != '0',
    decreases n,
{
    reveal_with_fuel(read, 2);
    let text = decimal(n);
    if n < 10 {
        lemma_digit(n);
        assert(text.drop_last() =~= Seq::<char>::empty());
    } else {
        lemma_decimal(n / 10);
        lemma_digit(n % 10);
        assert(text.drop_last() =~= decimal(n / 10));
        assert(text[0] == decimal(n / 10)[0]);
    }
}

/// A number is written in decimal digits, without leading zeros, and reads back
/// as itself.
pub proof fn lemma_numbers_read_back(n: u64, m: usize, text: String, other: String)
    requires
        call_ensures(show_u64, (n,), text),
        call_ensures(show_usize, (m,), other),
    ensures
        is_number(text@),
        read(text@) == n,
        text@.len() > 1 ==> text@[0] != '0',
        is_number(other@),
        read(other@) == m,
        other@.len() > 1 ==> other@[0] != '0',
{
    lemma_decimal(n as nat);
    lemma_decimal(m as nat);
}

/// The number in a message reads back as itself.
pub proof fn lemma_decimal_reads_back(n: nat)
    ensures
        is_number(decimal(n)),
        read(decimal(n)) == n,
        decimal(n).len() > 1 ==> decimal(n)[0] != '0',
{
    lemma_decimal(n);
}

/// Texts are put together in order.
pub proof fn lemma_texts_are_put_together(
    a: &str,
    b: &str,
    c: &str,
    two: String,
    three: String,
)
    requires
        call_ensures(concat2, (a, b), two),
        call_ensures(concat3, (a, b, c), three),
    ensures
        two@ == a@ + b@,
        three@ == a@ + b@ + c@,
{
}

/// The text of an error is its reason; that of a limit that was exceeded names
/// the resource, what was asked for, and the limit.
pub proof fn lemma_errors_say_why(error: Error, text: String)
    requires
        call_ensures(Error::message, (&error,), text),
    ensures
        match error {
            Error::Storage(StorageError::WalError { reason }) => text@ == reason@,
            Error::Storage(StorageError::CapacityExceeded { resource, current, limit }) => text@
                == "Capacity exceeded for "@ + resource@ + ": "@ + decimal(current as nat) + " > "@
                + decimal(limit as nat),
            Error::Storage(StorageError::LockPoisoned { reason }) => text@ == reason@,
            Error::Storage(StorageError::WalKeyringAlreadyInstalled { reason }) => text@
                == reason@,
            Error::Storage(StorageError::WalKeyringNotInstalled { reason }) => text@ == reason@,
            Error::Other(reason) => text@ == reason@,
        },
{
}

/// An error is made of the kind that it is named after, with its reason; only a
/// poisoned lock counts as one.
pub proof fn lemma_errors_are_of_their_kind(
    reason: String,
    wal: Error,
    other: Error,
    bound_ms: u64,
    refused: Error,
    error: Error,
    poisoned: bool,
)
    requires
        call_ensures(Error::wal, (reason,), wal),
        call_ensures(Error::other, (reason,), other),
        call_ensures(lock_not_acquired, (bound_ms,), refused),
        call_ensures(Error::is_lock_poisoned, (&error,), poisoned),
    ensures
        wal matches Error::Storage(StorageError::WalError { reason: r }) && r@ == reason@,
        other matches Error::Other(r) && r@ == reason@,
        refused matches Error::Storage(StorageError::WalError { reason: r }) && r@
            == "GroupCommitCoordinator state lock was not acquired within "@ + decimal(
            bound_ms as nat,
        ) + " ms"@,
        poisoned <==> (error matches Error::Storage(StorageError::LockPoisoned { .. })),
{
}

} // verus!
