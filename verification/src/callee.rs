//! What a call does, told from the name of its callee.

use vstd::prelude::*;

verus! {

/// The kinds of callee that call lowering tells apart.
#[derive(Clone, Copy, Debug, PartialEq, Eq, Structural)]
pub enum CalleeKind {
    /// The builtin that asserts that its two arguments are equal.
    BuiltinAssert,
    /// The builtin that checks that its argument is in range.
    BuiltinRangeCheck,
    /// A name that begins like a builtin's and is none that is known.
    UnknownBuiltin,
    /// The write of a storage slot.
    StorageWrite,
    /// The read of a storage slot.
    StorageRead,
    /// The hash.
    Hash,
    /// A request to the prover for a value.
    Prophet,
    /// Any other function.
    Plain,
}

/// Whether `prefix` stands at the start of `s`.
pub fn starts_with(s: &str, prefix: &str) -> (b: bool)
    ensures
        b == prefix@.is_prefix_of(s@),
{
    let n: usize = s.unicode_len();
    let m: usize = prefix.unicode_len();
    if m > n {
        return false;
    }
    let mut i: usize = 0;
    while i < m
        invariant
            i <= m <= n,
            n == s@.len(),
            m == prefix@.len(),
            forall|j: int| 0 <= j < i ==> s@[j] == prefix@[j],
        decreases m - i,
    {
        if s.get_char(i) != prefix.get_char(i) {
            return false;
        }
        i += 1;
    }
    assert(prefix@ =~= s@.subrange(0, m as int));
    true
}

/// Whether `s` and `t` hold the same characters.
pub fn same_name(s: &str, t: &str) -> (b: bool)
    ensures
        b == (s@ == t@),
{
    let n: usize = s.unicode_len();
    if n != t.unicode_len() {
        return false;
    }
    let same = starts_with(s, t);
    proof {
        if same {
            assert(s@ =~= s@.subrange(0, n as int));
        }
    }
    same
}

/// What a call to the function `name` does. The first that holds decides: a
/// name that begins with `builtin` is a builtin, known or not; then come the
/// storage write, the storage read and the hash, by their full names; a name
/// that begins with `prophet` asks the prover; anything else is an ordinary
/// function.
pub open spec fn spec_classify(name: Seq<char>) -> CalleeKind {
    if "builtin"@.is_prefix_of(name) {
        if name == "builtin_assert"@ {
            CalleeKind::BuiltinAssert
        } else if name == "builtin_range_check"@ {
            CalleeKind::BuiltinRangeCheck
        } else {
            CalleeKind::UnknownBuiltin
        }
    } else if name == "set_storage"@ {
        CalleeKind::StorageWrite
    } else if name == "get_storage"@ {
        CalleeKind::StorageRead
    } else if name == "poseidon_hash"@ {
        CalleeKind::Hash
    } else if "prophet"@.is_prefix_of(name) {
        CalleeKind::Prophet
    } else {
        CalleeKind::Plain
    }
}

/// What a call to the function `name` does.
pub fn classify(name: &str) -> (kind: CalleeKind)
    ensures
        kind == spec_classify(name@),
{
    if starts_with(name, "builtin") {
        if same_name(name, "builtin_assert") {
            CalleeKind::BuiltinAssert
        } else if same_name(name, "builtin_range_check") {
            CalleeKind::BuiltinRangeCheck
        } else {
            CalleeKind::UnknownBuiltin
        }
    } else if same_name(name, "set_storage") {
        CalleeKind::StorageWrite
    } else if same_name(name, "get_storage") {
        CalleeKind::StorageRead
    } else if same_name(name, "poseidon_hash") {
        CalleeKind::Hash
    } else if starts_with(name, "prophet") {
        CalleeKind::Prophet
    } else {
        CalleeKind::Plain
    }
}

} // verus!
