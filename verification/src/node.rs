//! A module of the dependency graph.

use crate::account::AccountData;
use crate::account::ModuleId;
use vstd::prelude::*;

verus! {

/// One module: who owns it, what it contributes itself, and what it is
/// expected to report once its dependencies are counted in.
#[derive(Clone, Debug)]
pub struct Node {
    pub name: ModuleId,
    pub self_value: u64,
    pub account_data: AccountData,
    pub expected_value: u64,
}

impl Node {
    /// The same node reporting `value`.
    pub open spec fn with_expected(self, value: u64) -> Node {
        Node { expected_value: value, ..self }
    }

    /// The same node after its owner signed one more transaction.
    pub open spec fn with_next_sequence(self) -> Node {
        Node {
            account_data: AccountData {
                sequence_number: (self.account_data.sequence_number + 1) as u64,
                ..self.account_data
            },
            ..self
        }
    }

    /// A copy of this node.
    pub fn duplicate(&self) -> (r: Node)
        ensures
            r == *self,
    {
        Node {
            name: self.name.duplicate(),
            self_value: self.self_value,
            account_data: self.account_data,
            expected_value: self.expected_value,
        }
    }
}

} // verus!
