//! The requests that the graph hands to whoever signs and runs them, the
//! operations a test run draws at random, and the verdict on what came back.

use crate::account::AccountAddress;
use crate::account::ModuleId;
use crate::index::Index;
use move_core_types::value::MoveValue;
use vstd::bytes::spec_u64_to_le_bytes;
use vstd::prelude::*;

verus! {

/// Why the graph could not be built or an operation not be carried out.
#[derive(Clone, Copy, Debug, PartialEq, Eq, Structural)]
pub enum LoaderError {
    /// The name of the node at this position is no identifier.
    InvalidName(usize),
    /// The node at this position has the identity of an earlier node.
    DuplicateModule(usize),
    /// The node at this position is owned by the account that is to send
    /// the invocations.
    SenderOwnsModule(usize),
    /// More nodes or edges than the graph can number.
    CapacityExceeded,
    /// Some expected value does not fit in 64 bits.
    ValueOverflow,
    /// A sequence number cannot be raised any further.
    SequenceOverflow,
    /// The transaction at this position of the batch did not succeed.
    StatusMismatch(usize),
}

/// A request to publish, or to publish anew, the package of one module.
#[derive(Debug)]
pub struct PublishRequest {
    /// The account that owns the module and signs the transaction.
    pub sender: AccountAddress,
    pub sequence_number: u64,
    pub module: ModuleId,
    /// The modules whose public function this module calls, once per edge.
    pub dependencies: Vec<ModuleId>,
    pub self_value: u64,
}

/// A request to call the entry function of one module, which aborts unless
/// the module reports `expected_value`.
#[derive(Debug)]
pub struct InvokeRequest {
    pub sender: AccountAddress,
    pub sequence_number: u64,
    pub module: ModuleId,
    pub function: String,
    pub expected_value: u64,
    /// The serialized arguments of the call: the expected value alone.
    pub arguments: Vec<Vec<u8>>,
}

/// A transaction still to be built, signed and run.
#[derive(Debug)]
pub enum LoaderTransaction {
    Publish(PublishRequest),
    Invoke(InvokeRequest),
}

/// An operation drawn at random during a test run. Its indices are
/// resolved against the number of nodes when it is applied.
#[derive(Clone, Copy, Debug)]
pub enum LoaderTransactionGen {
    /// Take out an edge between the two nodes if there is one, else put one in.
    UpdateEdge(Index, Index),
    /// Call the entry function of the node.
    Invoke(Index),
}

/// Of ten operations drawn, how many are invocations.
pub const INVOKE_WEIGHT: u32 = 9;

/// Of ten operations drawn, how many are edge updates.
pub const UPDATE_EDGE_WEIGHT: u32 = 1;

/// Whether a draw stands for an invocation.
pub open spec fn draws_invocation(draw: u32) -> bool {
    (draw as int) % (INVOKE_WEIGHT + UPDATE_EDGE_WEIGHT) < INVOKE_WEIGHT
}

impl LoaderTransactionGen {
    /// The operation that a draw stands for: invocations and edge updates
    /// come nine to one, whatever the draw was taken from.
    pub fn from_draw(draw: u32, first: Index, second: Index) -> (r: LoaderTransactionGen)
        ensures
            r == if draws_invocation(draw) {
                LoaderTransactionGen::Invoke(first)
            } else {
                LoaderTransactionGen::UpdateEdge(first, second)
            },
    {
        if draw % (INVOKE_WEIGHT + UPDATE_EDGE_WEIGHT) < INVOKE_WEIGHT {
            LoaderTransactionGen::Invoke(first)
        } else {
            LoaderTransactionGen::UpdateEdge(first, second)
        }
    }
}

/// What the executor reports of one transaction.
#[derive(Clone, Copy, Debug, PartialEq, Eq, Structural)]
pub enum TransactionStatus {
    /// Kept, and run to the end.
    Success,
    /// Kept, but aborted or failed with this code.
    Failure(u64),
    /// Not kept.
    Discarded,
}

/// The name of the entry function that every module has.
pub open spec fn entry_function() -> Seq<char> {
    "foo_entry"@
}

/// The name of the entry function that every module has.
pub fn entry_function_name() -> (r: String)
    ensures
        r@ == entry_function(),
{
    "foo_entry".to_owned()
}

/// `MoveValue::simple_serialize` of a `MoveValue::U64`. Trusted: it yields
/// the eight bytes of the number, least significant first, and never fails
/// on such a value.
#[verifier::external_body]
pub(crate) fn serialize_u64(value: u64) -> (r: Option<Vec<u8>>)
    ensures
        match r {
            Some(bytes) => bytes@ == spec_u64_to_le_bytes(value),
            None => false,
        },
{
    MoveValue::U64(value).simple_serialize()
}

/// The serialized arguments of a call that asserts `expected_value`.
pub open spec fn invoke_arguments(arguments: Seq<Vec<u8>>, expected_value: u64) -> bool {
    arguments.len() == 1 && arguments[0]@ == spec_u64_to_le_bytes(expected_value)
}

/// The serialized arguments of a call that asserts `expected_value`.
pub fn encode_arguments(expected_value: u64) -> (r: Vec<Vec<u8>>)
    ensures
        invoke_arguments(r@, expected_value),
{
    let bytes = match serialize_u64(expected_value) {
        Some(bytes) => bytes,
        None => vstd::pervasive::unreached(),
    };
    let mut arguments: Vec<Vec<u8>> = Vec::new();
    arguments.push(bytes);
    arguments
}

/// Holds the statuses of a batch against the one outcome a test run
/// accepts: every transaction kept and run to the end.
pub fn check_statuses(statuses: &Vec<TransactionStatus>) -> (r: Result<(), LoaderError>)
    ensures
        r is Ok <==> forall|k: int|
            0 <= k < statuses@.len() ==> statuses@[k] == TransactionStatus::Success,
        r matches Err(e) ==> {
            &&& e matches LoaderError::StatusMismatch(k)
            &&& k < statuses@.len()
            &&& statuses@[k as int] != TransactionStatus::Success
            &&& forall|j: int| 0 <= j < k ==> statuses@[j] == TransactionStatus::Success
        },
{
    let mut k: usize = 0;
    while k < statuses.len()
        invariant
            k <= statuses@.len(),
            forall|j: int| 0 <= j < k ==> statuses@[j] == TransactionStatus::Success,
        decreases statuses@.len() - k,
    {
        if statuses[k] != TransactionStatus::Success {
            return Err(LoaderError::StatusMismatch(k));
        }
        k += 1;
    }
    Ok(())
}

} // verus!
