//! Error types of the storage layer and of the broker's commands.

use vstd::prelude::*;

verus! {

/// Low-level storage engine errors (engine failures, serialization).
/// Storage operations can only fail with infrastructure errors, never
/// domain errors.
#[derive(Debug)]
pub enum StorageError {
    /// The engine itself failed.
    Engine(String),
    /// A stored value could not be encoded or decoded.
    Serialization(String),
    /// A named store (column family) does not exist.
    StoreNotFound(String),
    /// Stored data is damaged.
    CorruptData(String),
}

/// The result of a storage operation.
pub type StorageResult<T> = Result<T, StorageError>;

/// Why an enqueue failed.
#[derive(Debug)]
pub enum EnqueueError {
    QueueNotFound(String),
    Storage(StorageError),
}

impl From<StorageError> for EnqueueError {
    fn from(err: StorageError) -> (r: Self)
        ensures
            r == EnqueueError::Storage(err),
    {
        EnqueueError::Storage(err)
    }
}

impl vstd::std_specs::convert::FromSpecImpl<StorageError> for EnqueueError {
    open spec fn obeys_from_spec() -> bool {
        true
    }

    open spec fn from_spec(err: StorageError) -> Self {
        EnqueueError::Storage(err)
    }
}

/// Why an ack failed.
#[derive(Debug)]
pub enum AckError {
    MessageNotFound(String),
    Storage(StorageError),
}

impl From<StorageError> for AckError {
    fn from(err: StorageError) -> (r: Self)
        ensures
            r == AckError::Storage(err),
    {
        AckError::Storage(err)
    }
}

impl vstd::std_specs::convert::FromSpecImpl<StorageError> for AckError {
    open spec fn obeys_from_spec() -> bool {
        true
    }

    open spec fn from_spec(err: StorageError) -> Self {
        AckError::Storage(err)
    }
}

/// Why a nack failed.
#[derive(Debug)]
pub enum NackError {
    MessageNotFound(String),
    Storage(StorageError),
}

impl From<StorageError> for NackError {
    fn from(err: StorageError) -> (r: Self)
        ensures
            r == NackError::Storage(err),
    {
        NackError::Storage(err)
    }
}

impl vstd::std_specs::convert::FromSpecImpl<StorageError> for NackError {
    open spec fn obeys_from_spec() -> bool {
        true
    }

    open spec fn from_spec(err: StorageError) -> Self {
        NackError::Storage(err)
    }
}

/// Why creating a queue failed.
#[derive(Debug)]
pub enum CreateQueueError {
    QueueAlreadyExists(String),
    LuaCompilation(String),
    Storage(StorageError),
}

impl From<StorageError> for CreateQueueError {
    fn from(err: StorageError) -> (r: Self)
        ensures
            r == CreateQueueError::Storage(err),
    {
        CreateQueueError::Storage(err)
    }
}

impl vstd::std_specs::convert::FromSpecImpl<StorageError> for CreateQueueError {
    open spec fn obeys_from_spec() -> bool {
        true
    }

    open spec fn from_spec(err: StorageError) -> Self {
        CreateQueueError::Storage(err)
    }
}

/// Why deleting a queue failed.
#[derive(Debug)]
pub enum DeleteQueueError {
    QueueNotFound(String),
    Storage(StorageError),
}

impl From<StorageError> for DeleteQueueError {
    fn from(err: StorageError) -> (r: Self)
        ensures
            r == DeleteQueueError::Storage(err),
    {
        DeleteQueueError::Storage(err)
    }
}

impl vstd::std_specs::convert::FromSpecImpl<StorageError> for DeleteQueueError {
    open spec fn obeys_from_spec() -> bool {
        true
    }

    open spec fn from_spec(err: StorageError) -> Self {
        DeleteQueueError::Storage(err)
    }
}

/// Why a config change failed.
#[derive(Debug)]
pub enum ConfigError {
    InvalidValue(String),
    Storage(StorageError),
}

impl From<StorageError> for ConfigError {
    fn from(err: StorageError) -> (r: Self)
        ensures
            r == ConfigError::Storage(err),
    {
        ConfigError::Storage(err)
    }
}

impl vstd::std_specs::convert::FromSpecImpl<StorageError> for ConfigError {
    open spec fn obeys_from_spec() -> bool {
        true
    }

    open spec fn from_spec(err: StorageError) -> Self {
        ConfigError::Storage(err)
    }
}

/// Why reading queue statistics failed.
#[derive(Debug)]
pub enum StatsError {
    QueueNotFound(String),
    Storage(StorageError),
}

impl From<StorageError> for StatsError {
    fn from(err: StorageError) -> (r: Self)
        ensures
            r == StatsError::Storage(err),
    {
        StatsError::Storage(err)
    }
}

impl vstd::std_specs::convert::FromSpecImpl<StorageError> for StatsError {
    open spec fn obeys_from_spec() -> bool {
        true
    }

    open spec fn from_spec(err: StorageError) -> Self {
        StatsError::Storage(err)
    }
}

/// Why a redrive from a dead-letter queue failed.
#[derive(Debug)]
pub enum RedriveError {
    QueueNotFound(String),
    NotADLQ(String),
    ParentQueueNotFound(String),
    Storage(StorageError),
}

impl From<StorageError> for RedriveError {
    fn from(err: StorageError) -> (r: Self)
        ensures
            r == RedriveError::Storage(err),
    {
        RedriveError::Storage(err)
    }
}

impl vstd::std_specs::convert::FromSpecImpl<StorageError> for RedriveError {
    open spec fn obeys_from_spec() -> bool {
        true
    }

    open spec fn from_spec(err: StorageError) -> Self {
        RedriveError::Storage(err)
    }
}

/// Why listing queues failed.
#[derive(Debug)]
pub enum ListQueuesError {
    Storage(StorageError),
}

impl From<StorageError> for ListQueuesError {
    fn from(err: StorageError) -> (r: Self)
        ensures
            r == ListQueuesError::Storage(err),
    {
        ListQueuesError::Storage(err)
    }
}

impl vstd::std_specs::convert::FromSpecImpl<StorageError> for ListQueuesError {
    open spec fn obeys_from_spec() -> bool {
        true
    }

    open spec fn from_spec(err: StorageError) -> Self {
        ListQueuesError::Storage(err)
    }
}

/// Why listing consumer groups failed.
#[derive(Debug)]
pub enum ConsumerGroupsError {
    Storage(StorageError),
}

impl From<StorageError> for ConsumerGroupsError {
    fn from(err: StorageError) -> (r: Self)
        ensures
            r == ConsumerGroupsError::Storage(err),
    {
        ConsumerGroupsError::Storage(err)
    }
}

impl vstd::std_specs::convert::FromSpecImpl<StorageError> for ConsumerGroupsError {
    open spec fn obeys_from_spec() -> bool {
        true
    }

    open spec fn from_spec(err: StorageError) -> Self {
        ConsumerGroupsError::Storage(err)
    }
}

/// Broker lifecycle and scheduler channel errors.
#[derive(Debug, Clone, PartialEq, Eq)]
pub enum BrokerError {
    /// The scheduler thread could not be spawned.
    SchedulerSpawn(String),
    /// The scheduler command channel is full.
    ChannelFull,
    /// The scheduler command channel is disconnected.
    ChannelDisconnected,
    /// The scheduler thread panicked.
    SchedulerPanicked,
}

/// The result of a broker lifecycle operation.
pub type BrokerResult<T> = Result<T, BrokerError>;

/// Error from a cluster write operation (client write or forward).
#[derive(Debug, Clone, PartialEq, Eq)]
pub enum ClusterWriteError {
    /// The queue's Raft group does not exist anywhere in the cluster.
    QueueGroupNotFound,
    /// The queue exists in the cluster but this node's Raft group is not
    /// ready yet (still catching up or being created).
    NodeNotReady,
    /// No leader is currently known for the target Raft group.
    NoLeader,
    /// Raft consensus error.
    Raft(String),
    /// Error forwarding request to the leader node.
    Forward(String),
}


// ---------------------------------------------------------------------------
// Display texts
// ---------------------------------------------------------------------------

/// `prefix` followed by `s`.
pub fn prefixed(prefix: &str, s: &str) -> (r: String)
    ensures
        r@ == prefix@ + s@,
{
    let mut r = String::from_str(prefix);
    r.append(s);
    r
}

/// The display text of a storage error.
pub open spec fn storage_error_text(e: StorageError) -> Seq<char> {
    match e {
        StorageError::Engine(s) => "storage engine error: "@ + s@,
        StorageError::Serialization(s) => "serialization error: "@ + s@,
        StorageError::StoreNotFound(s) => "store not found: "@ + s@,
        StorageError::CorruptData(s) => "corrupt data: "@ + s@,
    }
}

impl StorageError {
    /// The error's display text.
    pub fn message(&self) -> (r: String)
        ensures
            r@ == storage_error_text(*self),
    {
        match self {
            StorageError::Engine(s) => prefixed("storage engine error: ", s.as_str()),
            StorageError::Serialization(s) => prefixed("serialization error: ", s.as_str()),
            StorageError::StoreNotFound(s) => prefixed("store not found: ", s.as_str()),
            StorageError::CorruptData(s) => prefixed("corrupt data: ", s.as_str()),
        }
    }
}

impl EnqueueError {
    /// The error's display text; a storage error shows through as it is.
    pub fn message(&self) -> (r: String)
        ensures
            r@ == match *self {
                EnqueueError::QueueNotFound(s) => "queue not found: "@ + s@,
                EnqueueError::Storage(e) => storage_error_text(e),
            },
    {
        match self {
            EnqueueError::QueueNotFound(s) => prefixed("queue not found: ", s.as_str()),
            EnqueueError::Storage(e) => e.message(),
        }
    }
}

impl AckError {
    /// The error's display text; a storage error shows through as it is.
    pub fn message(&self) -> (r: String)
        ensures
            r@ == match *self {
                AckError::MessageNotFound(s) => "message not found: "@ + s@,
                AckError::Storage(e) => storage_error_text(e),
            },
    {
        match self {
            AckError::MessageNotFound(s) => prefixed("message not found: ", s.as_str()),
            AckError::Storage(e) => e.message(),
        }
    }
}

impl NackError {
    /// The error's display text; a storage error shows through as it is.
    pub fn message(&self) -> (r: String)
        ensures
            r@ == match *self {
                NackError::MessageNotFound(s) => "message not found: "@ + s@,
                NackError::Storage(e) => storage_error_text(e),
            },
    {
        match self {
            NackError::MessageNotFound(s) => prefixed("message not found: ", s.as_str()),
            NackError::Storage(e) => e.message(),
        }
    }
}

/// The display text of a broker error.
pub open spec fn broker_error_text(e: BrokerError) -> Seq<char> {
    match e {
        BrokerError::SchedulerSpawn(s) => "failed to spawn scheduler thread: "@ + s@,
        BrokerError::ChannelFull => "scheduler command channel full"@,
        BrokerError::ChannelDisconnected => "scheduler command channel disconnected"@,
        BrokerError::SchedulerPanicked => "scheduler thread panicked"@,
    }
}

impl BrokerError {
    /// The error's display text.
    pub fn message(&self) -> (r: String)
        ensures
            r@ == broker_error_text(*self),
    {
        match self {
            BrokerError::SchedulerSpawn(s) => prefixed("failed to spawn scheduler thread: ", s.as_str()),
            BrokerError::ChannelFull => String::from_str("scheduler command channel full"),
            BrokerError::ChannelDisconnected => String::from_str("scheduler command channel disconnected"),
            BrokerError::SchedulerPanicked => String::from_str("scheduler thread panicked"),
        }
    }
}

/// The display text of a cluster write error.
pub open spec fn cluster_write_error_text(e: ClusterWriteError) -> Seq<char> {
    match e {
        ClusterWriteError::QueueGroupNotFound => "queue raft group not found"@,
        ClusterWriteError::NodeNotReady => "node not ready for this queue"@,
        ClusterWriteError::NoLeader => "no leader available"@,
        ClusterWriteError::Raft(s) => "raft error: "@ + s@,
        ClusterWriteError::Forward(s) => "forward error: "@ + s@,
    }
}

impl ClusterWriteError {
    /// The error's display text.
    pub fn message(&self) -> (r: String)
        ensures
            r@ == cluster_write_error_text(*self),
    {
        match self {
            ClusterWriteError::QueueGroupNotFound => String::from_str("queue raft group not found"),
            ClusterWriteError::NodeNotReady => String::from_str("node not ready for this queue"),
            ClusterWriteError::NoLeader => String::from_str("no leader available"),
            ClusterWriteError::Raft(s) => prefixed("raft error: ", s.as_str()),
            ClusterWriteError::Forward(s) => prefixed("forward error: ", s.as_str()),
        }
    }
}

} // verus!
