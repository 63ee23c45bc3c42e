//! Accounts and module identities, as plain values.

use move_core_types::identifier::Identifier;
use vstd::prelude::*;

verus! {

/// The balance that the dedicated sender account starts with.
pub const DEFAULT_BALANCE: u64 = 1_000_000_000;

/// The address of an account.
#[derive(Clone, Copy, Debug)]
pub struct AccountAddress {
    pub bytes: [u8; 32],
}

/// What the graph needs to know of an account: where it lives, what it
/// holds, and the sequence number of the next transaction it signs.
#[derive(Clone, Copy, Debug)]
pub struct AccountData {
    pub address: AccountAddress,
    pub balance: u64,
    pub sequence_number: u64,
}

/// The identity of a module: the owning account's address and a name.
#[derive(Clone, Debug)]
pub struct ModuleId {
    pub address: AccountAddress,
    pub name: String,
}

/// Whether `c` may occur in an identifier.
pub open spec fn is_identifier_char(c: char) -> bool {
    c == '_' || ('a' <= c && c <= 'z') || ('A' <= c && c <= 'Z') || ('0' <= c && c <= '9')
}

/// Whether `s` is an identifier: a letter, or an underscore with something
/// after it, followed by letters, digits and underscores only. The reserved
/// name `<SELF>` counts as one too.
pub open spec fn is_valid_identifier(s: Seq<char>) -> bool {
    ||| s == seq!['<', 'S', 'E', 'L', 'F', '>']
    ||| {
        &&& s.len() >= 1
        &&& (('a' <= s[0] && s[0] <= 'z') || ('A' <= s[0] && s[0] <= 'Z') || (s[0] == '_'
            && s.len() > 1))
        &&& forall|i: int| 1 <= i < s.len() ==> is_identifier_char(#[trigger] s[i])
    }
}

/// `move_core_types::identifier::Identifier::new`, asked only whether it
/// accepts `name`. Trusted: it accepts exactly the strings that
/// `is_valid_identifier` describes.
#[verifier::external_body]
pub(crate) fn identifier_accepts(name: &str) -> (r: bool)
    ensures
        r == is_valid_identifier(name@),
{
    match Identifier::new(name) {
        Ok(_) => true,
        Err(_) => false,
    }
}

/// Whether `name` is an identifier.
pub fn is_identifier(name: &str) -> (r: bool)
    ensures
        r == is_valid_identifier(name@),
{
    identifier_accepts(name)
}

impl AccountAddress {
    /// Whether two addresses hold the same bytes.
    pub fn same(&self, other: &AccountAddress) -> (r: bool)
        ensures
            r == (self.bytes@ == other.bytes@),
    {
        let mut i: usize = 0;
        while i < 32
            invariant
                i <= 32,
                forall|k: int| 0 <= k < i ==> self.bytes@[k] == other.bytes@[k],
            decreases 32 - i,
        {
            if self.bytes[i] != other.bytes[i] {
                return false;
            }
            i += 1;
        }
        assert(self.bytes@ =~= other.bytes@);
        true
    }
}

impl AccountData {
    /// An account at `address` with the given balance and sequence number.
    pub fn new(address: AccountAddress, balance: u64, sequence_number: u64) -> (r: AccountData)
        ensures
            r == (AccountData { address, balance, sequence_number }),
    {
        AccountData { address, balance, sequence_number }
    }
}

impl ModuleId {
    /// Whether the name is an identifier.
    pub open spec fn wf(&self) -> bool {
        is_valid_identifier(self.name@)
    }

    /// Whether two identities name the same module.
    pub open spec fn same_module(&self, other: &ModuleId) -> bool {
        self.address.bytes@ == other.address.bytes@ && self.name@ == other.name@
    }

    /// The identity made of `address` and `name`, if `name` is an identifier.
    pub fn new(address: AccountAddress, name: String) -> (r: Option<ModuleId>)
        ensures
            r is Some <==> is_valid_identifier(name@),
            r matches Some(id) ==> id == (ModuleId { address, name }),
    {
        if identifier_accepts(name.as_str()) {
            Some(ModuleId { address, name })
        } else {
            None
        }
    }

    /// A copy of this identity.
    pub fn duplicate(&self) -> (r: ModuleId)
        ensures
            r == *self,
    {
        ModuleId { address: self.address, name: self.name.clone() }
    }

    /// Whether two identities name the same module.
    pub fn same(&self, other: &ModuleId) -> (r: bool)
        ensures
            r == self.same_module(other),
    {
        self.address.same(&other.address) && self.name == other.name
    }
}

} // verus!
