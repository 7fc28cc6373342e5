//! The events that the network hands to the protocol, and the decision of
//! a controller that waits for a command.
use crate::block::BlockId;
use crate::endorsement::Endorsement;
use crate::node::NodeId;
use vstd::prelude::*;

verus! {

/// An event from the network, whose headers, blocks, operations and operation
/// identifiers are of the types that the protocol uses.
#[derive(Debug)]
pub enum NetworkEvent<Header, Block, Operations, OperationIds> {
    /// A node connected.
    NewConnection(NodeId),
    /// A node's connection closed.
    ConnectionClosed(NodeId),
    /// A node sent a block header.
    ReceivedBlockHeader { source_node_id: NodeId, header: Header },
    /// A node sent a block and its serialized form.
    ReceivedBlock { node: NodeId, block: Block, serialized: Vec<u8> },
    /// A node sent operations.
    ReceivedOperations { node: NodeId, operations: Operations },
    /// A node announced operations by their identifiers.
    ReceivedOperationAnnouncements { node: NodeId, operation_ids: OperationIds },
    /// A node asked for operations.
    ReceiveAskForOperations { node: NodeId, operation_ids: OperationIds },
    /// A node sent endorsements.
    ReceivedEndorsements { node: NodeId, endorsements: Vec<Endorsement> },
    /// A node asked for blocks.
    AskedForBlocks { node: NodeId, list: Vec<BlockId> },
    /// A node did not find a block it was asked for.
    BlockNotFound { node: NodeId, block_id: BlockId },
}

/// What happened while waiting for a command: a command came and the
/// caller's filter turned it into a value or into nothing, the command
/// channel closed, or the time ran out.
pub enum WaitEvent<T> {
    Command(Option<T>),
    ChannelClosed,
    TimedOut,
}

/// What a waiting controller does next.
#[derive(Debug)]
pub enum WaitAction<T> {
    /// Stop waiting and give this result.
    Finish(Option<T>),
    /// Wait for the next command.
    KeepWaiting,
    /// Stop: the command channel closed, which a controller does not expect.
    ChannelClosed,
}

/// Decides what a controller waiting for a command does after `event`: a
/// command that the filter keeps ends the wait with it, one that it drops
/// leaves the controller waiting, the end of the time ends the wait with
/// nothing, and a closed channel is reported.
pub fn wait_command_step<T>(event: WaitEvent<T>) -> (action: WaitAction<T>)
    ensures
        match event {
            WaitEvent::Command(Some(v)) => action == WaitAction::Finish(Some(v)),
            WaitEvent::Command(None) => action == WaitAction::<T>::KeepWaiting,
            WaitEvent::ChannelClosed => action == WaitAction::<T>::ChannelClosed,
            WaitEvent::TimedOut => action == WaitAction::<T>::Finish(None),
        },
{
    match event {
        WaitEvent::Command(Some(v)) => WaitAction::Finish(Some(v)),
        WaitEvent::Command(None) => WaitAction::KeepWaiting,
        WaitEvent::ChannelClosed => WaitAction::ChannelClosed,
        WaitEvent::TimedOut => WaitAction::Finish(None),
    }
}

} // verus!
