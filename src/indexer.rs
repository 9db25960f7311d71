use vstd::prelude::*;
use crate::decimal::{decimal_value, format_u128, is_canonical_decimal, is_decimal, parse_u128};
use crate::events::{extract_events, logs_events, Event, ReceiptOutcome};
use crate::ledger::{apply_all, Ledger, LedgerError, UserView};
use crate::text::{trim_text, trimmed};

verus! {

/// One partition of a block's execution results.
pub struct Shard {
    pub outcomes: Vec<ReceiptOutcome>,
}

/// A block of the chain: its height and its shards.
pub struct Block {
    pub height: u64,
    pub shards: Vec<Shard>,
}

/// The events of the receipts that `target` received, in order.
pub open spec fn outcomes_events(os: Seq<ReceiptOutcome>, target: Seq<char>) -> Seq<Event>
    decreases os.len(),
{
    if os.len() == 0 {
        Seq::empty()
    } else {
        outcomes_events(os.drop_last(), target) + if os.last().receiver@ == target {
            logs_events(os.last().logs@)
        } else {
            Seq::empty()
        }
    }
}

/// The events of the receipts that `target` received in a sequence of
/// shards, shard by shard, in order.
pub open spec fn shards_events(ss: Seq<Shard>, target: Seq<char>) -> Seq<Event>
    decreases ss.len(),
{
    if ss.len() == 0 {
        Seq::empty()
    } else {
        shards_events(ss.drop_last(), target) + outcomes_events(ss.last().outcomes@, target)
    }
}

/// The events that the contract `target` reported in one shard.
fn shard_events(shard: &Shard, target: &String) -> (r: Vec<Event>)
    ensures
        r@ == outcomes_events(shard.outcomes@, target@),
{
    let os = &shard.outcomes;
    let mut out: Vec<Event> = Vec::new();
    let mut i: usize = 0;
    while i < os.len()
        invariant
            0 <= i <= os@.len(),
            out@ == outcomes_events(os@.subrange(0, i as int), target@),
        decreases os@.len() - i,
    {
        assert(os@.subrange(0, i + 1).drop_last() =~= os@.subrange(0, i as int));
        if os[i].receiver == *target {
            let mut es = extract_events(&os[i]);
            out.append(&mut es);
        } else {
            assert(out@ + Seq::<Event>::empty() =~= out@);
        }
        i = i + 1;
    }
    assert(os@.subrange(0, os@.len() as int) =~= os@);
    out
}

/// The events that the contract `target` reported in a block, in order;
/// the receipts of other accounts are passed over.
pub fn block_events(block: &Block, target: &str) -> (r: Vec<Event>)
    ensures
        r@ == shards_events(block.shards@, target@),
{
    let target = String::from_str(target);
    let ss = &block.shards;
    let mut out: Vec<Event> = Vec::new();
    let mut i: usize = 0;
    while i < ss.len()
        invariant
            0 <= i <= ss@.len(),
            out@ == shards_events(ss@.subrange(0, i as int), target@),
        decreases ss@.len() - i,
    {
        assert(ss@.subrange(0, i + 1).drop_last() =~= ss@.subrange(0, i as int));
        let mut es = shard_events(&ss[i], &target);
        out.append(&mut es);
        i = i + 1;
    }
    assert(ss@.subrange(0, ss@.len() as int) =~= ss@);
    out
}

/// The state of the indexer as the contracts speak of it.
pub struct IndexerView {
    pub ledger: Seq<UserView>,
    pub checkpoint: u64,
}

/// The state after one block: a block at or below the checkpoint is already
/// reflected in the ledger and changes nothing; any other has its events
/// applied, and its height becomes the checkpoint.
pub open spec fn block_step(st: IndexerView, block: Block, target: Seq<char>) -> Result<
    IndexerView,
    LedgerError,
> {
    if block.height <= st.checkpoint {
        Ok(st)
    } else {
        match apply_all(st.ledger, shards_events(block.shards@, target)) {
            Ok(l) => Ok(IndexerView { ledger: l, checkpoint: block.height }),
            Err(err) => Err(err),
        }
    }
}

/// Replaying a block is harmless: once a block has been handled, handling
/// it again from the state it left changes nothing, so events already in the
/// ledger are never applied twice.
pub proof fn lemma_replay_is_idempotent(st: IndexerView, block: Block, target: Seq<char>)
    ensures
        block_step(st, block, target) matches Ok(st1) ==> block_step(st1, block, target) == Ok::<
            IndexerView,
            LedgerError,
        >(st1),
{
}

/// What handling a block did.
#[derive(Debug, Clone, Copy, PartialEq, Eq, Structural)]
pub enum BlockOutcome {
    /// The block was at or below the checkpoint: nothing changed.
    AlreadyApplied,
    /// The block's events were applied, and its height is the checkpoint.
    Applied { events: usize },
}

/// The indexer: the ledger, and the height of the last block whose events it
/// reflects.
pub struct Indexer {
    ledger: Ledger,
    checkpoint: u64,
}

impl View for Indexer {
    type V = IndexerView;

    closed spec fn view(&self) -> IndexerView {
        IndexerView { ledger: self.ledger@, checkpoint: self.checkpoint }
    }
}

impl Indexer {
    /// Whether the ledger is well formed.
    pub closed spec fn wf(&self) -> bool {
        self.ledger.wf()
    }

    /// An indexer that resumes from a ledger and the checkpoint it reflects.
    pub fn new(ledger: Ledger, checkpoint: u64) -> (r: Indexer)
        requires
            ledger.wf(),
        ensures
            r.wf(),
            r@ == (IndexerView { ledger: ledger@, checkpoint }),
    {
        Indexer { ledger, checkpoint }
    }

    /// The ledger.
    pub fn ledger(&self) -> (r: &Ledger)
        requires
            self.wf(),
        ensures
            r@ == self@.ledger,
            r.wf(),
    {
        &self.ledger
    }

    /// The height of the last block whose events the ledger reflects.
    pub fn checkpoint(&self) -> (r: u64)
        ensures
            r == self@.checkpoint,
    {
        self.checkpoint
    }

    /// Handles one block: applies the events that `target` reported in it,
    /// all or none, unless the block is at or below the checkpoint. On an
    /// error nothing changes.
    pub fn handle_block(&mut self, block: &Block, target: &str) -> (r: Result<
        BlockOutcome,
        LedgerError,
    >)
        requires
            old(self).wf(),
        ensures
            final(self).wf(),
            match block_step(old(self)@, *block, target@) {
                Ok(st) => final(self)@ == st && (r matches Ok(o) && (o is AlreadyApplied
                    <==> block.height <= old(self)@.checkpoint) && (o matches BlockOutcome::Applied { events }
                    ==> events == shards_events(block.shards@, target@).len())),
                Err(err) => r == Err::<BlockOutcome, LedgerError>(err) && final(self)@ == old(
                    self,
                )@,
            },
    {
        if block.height <= self.checkpoint {
            return Ok(BlockOutcome::AlreadyApplied);
        }
        let es = block_events(block, target);
        match self.ledger.apply_events(&es) {
            Ok(()) => {
                self.checkpoint = block.height;
                Ok(BlockOutcome::Applied { events: es.len() })
            },
            Err(err) => Err(err),
        }
    }
}

/// The checkpoint that the text of a checkpoint file gives: the height it
/// writes in decimal digits, white space around it aside, or `genesis` where
/// it writes none.
pub open spec fn checkpoint_of(text: Seq<char>, genesis: u64) -> u64 {
    let t = trimmed(text);
    if is_decimal(t) && decimal_value(t) <= u64::MAX {
        decimal_value(t) as u64
    } else {
        genesis
    }
}

/// Reads the text of a checkpoint file, falling back to `genesis` where it
/// writes no height.
pub fn checkpoint_from_text(text: &str, genesis: u64) -> (r: u64)
    ensures
        r == checkpoint_of(text@, genesis),
{
    match parse_u128(trim_text(text)) {
        Some(n) => if n <= u64::MAX as u128 {
            n as u64
        } else {
            genesis
        },
        None => genesis,
    }
}

/// The text of a checkpoint file for a height: its decimal digits.
pub fn checkpoint_text(height: u64) -> (r: String)
    ensures
        is_canonical_decimal(r@),
        decimal_value(r@) == height,
{
    format_u128(height as u128)
}

/// The height to resume at after a checkpoint: the next one, or `None` when
/// the checkpoint is the last height there is.
pub fn resume_height(checkpoint: u64) -> (r: Option<u64>)
    ensures
        r == (if checkpoint < u64::MAX {
            Some((checkpoint + 1) as u64)
        } else {
            None::<u64>
        }),
{
    if checkpoint < u64::MAX {
        Some(checkpoint + 1)
    } else {
        None
    }
}

} // verus!
