//! Receipts: what a commit hands back so that a revert can undo it.

use vstd::prelude::*;
use std::collections::HashMap;

verus! {

broadcast use vstd::std_specs::hash::group_hash_axioms;

/// The data needed to undo one operation of a block, addressed by the
/// operation's position.
#[derive(Clone, Debug, PartialEq, Eq)]
pub enum Receipt {
    /// For the sender side (`sender`) or the recipient side of the
    /// transaction at `index`.
    Transaction { index: u16, sender: bool, data: Vec<u8> },
    /// For the inherent at `index` among those of its phase.
    Inherent { index: u16, pre_transactions: bool, data: Vec<u8> },
}

/// A receipt with its data as a sequence of bytes.
pub enum ReceiptView {
    Transaction { index: u16, sender: bool, data: Seq<u8> },
    Inherent { index: u16, pre_transactions: bool, data: Seq<u8> },
}

impl View for Receipt {
    type V = ReceiptView;

    open spec fn view(&self) -> ReceiptView {
        match *self {
            Receipt::Transaction { index, sender, data } => ReceiptView::Transaction {
                index,
                sender,
                data: data@,
            },
            Receipt::Inherent { index, pre_transactions, data } => ReceiptView::Inherent {
                index,
                pre_transactions,
                data: data@,
            },
        }
    }
}

/// The four phases that produce receipts.
#[derive(Clone, Copy, Debug, PartialEq, Eq, Structural)]
pub enum Phase {
    PreTxInherents,
    Senders,
    Recipients,
    PostTxInherents,
}

impl ReceiptView {
    /// The phase the receipt belongs to.
    pub open spec fn phase(self) -> Phase {
        match self {
            ReceiptView::Transaction { sender, .. } => if sender {
                Phase::Senders
            } else {
                Phase::Recipients
            },
            ReceiptView::Inherent { pre_transactions, .. } => if pre_transactions {
                Phase::PreTxInherents
            } else {
                Phase::PostTxInherents
            },
        }
    }

    /// The position of the operation the receipt is for.
    pub open spec fn index(self) -> u16 {
        match self {
            ReceiptView::Transaction { index, .. } => index,
            ReceiptView::Inherent { index, .. } => index,
        }
    }

    /// The receipt's data.
    pub open spec fn data(self) -> Seq<u8> {
        match self {
            ReceiptView::Transaction { data, .. } => data,
            ReceiptView::Inherent { data, .. } => data,
        }
    }
}

/// The receipts of one block application, in the order they were produced.
#[derive(Clone, Debug, PartialEq, Eq)]
pub struct Receipts {
    pub receipts: Vec<Receipt>,
}

impl View for Receipts {
    type V = Seq<ReceiptView>;

    open spec fn view(&self) -> Seq<ReceiptView> {
        Seq::new(self.receipts@.len(), |i: int| self.receipts@[i]@)
    }
}

impl Receipts {
    /// The number of receipts.
    pub fn len(&self) -> (n: usize)
        ensures
            n == self@.len(),
    {
        self.receipts.len()
    }
}

impl From<Vec<Receipt>> for Receipts {
    fn from(receipts: Vec<Receipt>) -> (collected: Receipts) {
        Receipts { receipts }
    }
}

impl vstd::std_specs::convert::FromSpecImpl<Vec<Receipt>> for Receipts {
    open spec fn obeys_from_spec() -> bool {
        true
    }

    open spec fn from_spec(receipts: Vec<Receipt>) -> Receipts {
        Receipts { receipts }
    }
}

/// The receipts of one phase by index: of two receipts with the same
/// phase and index the later one counts.
pub open spec fn receipts_of(receipts: Seq<ReceiptView>, phase: Phase) -> Map<u16, Seq<u8>>
    decreases receipts.len(),
{
    if receipts.len() == 0 {
        Map::empty()
    } else {
        let earlier = receipts_of(receipts.drop_last(), phase);
        let last = receipts.last();
        if last.phase() == phase {
            earlier.insert(last.index(), last.data())
        } else {
            earlier
        }
    }
}

/// The bytes that a map of borrowed receipt data holds under each index.
pub open spec fn map_data(map: Map<u16, &Vec<u8>>) -> Map<u16, Seq<u8>> {
    Map::new(|index: u16| map.contains_key(index), |index: u16| map[index]@)
}

/// The four maps that a revert works from, one for each phase.
pub struct ReceiptMaps<'a> {
    pub sender_receipts: HashMap<u16, &'a Vec<u8>>,
    pub recipient_receipts: HashMap<u16, &'a Vec<u8>>,
    pub pre_tx_inherent_receipts: HashMap<u16, &'a Vec<u8>>,
    pub post_tx_inherent_receipts: HashMap<u16, &'a Vec<u8>>,
}

/// Parts the receipts by phase, so that a receipt of one phase never meets
/// a receipt of another phase that has the same index.
pub fn prepare_receipts<'a>(receipts: &'a Receipts) -> (maps: ReceiptMaps<'a>)
    ensures
        map_data(maps.sender_receipts@) == receipts_of(receipts@, Phase::Senders),
        map_data(maps.recipient_receipts@) == receipts_of(receipts@, Phase::Recipients),
        map_data(maps.pre_tx_inherent_receipts@) == receipts_of(receipts@, Phase::PreTxInherents),
        map_data(maps.post_tx_inherent_receipts@) == receipts_of(
            receipts@,
            Phase::PostTxInherents,
        ),
{
    let mut sender_receipts: HashMap<u16, &'a Vec<u8>> = HashMap::new();
    let mut recipient_receipts: HashMap<u16, &'a Vec<u8>> = HashMap::new();
    let mut pre_tx_inherent_receipts: HashMap<u16, &'a Vec<u8>> = HashMap::new();
    let mut post_tx_inherent_receipts: HashMap<u16, &'a Vec<u8>> = HashMap::new();
    let ghost all = receipts@;
    assert(all.take(0) =~= Seq::<ReceiptView>::empty());
    assert(map_data(sender_receipts@) =~= receipts_of(all.take(0), Phase::Senders));
    assert(map_data(recipient_receipts@) =~= receipts_of(all.take(0), Phase::Recipients));
    assert(map_data(pre_tx_inherent_receipts@) =~= receipts_of(all.take(0), Phase::PreTxInherents));
    assert(map_data(post_tx_inherent_receipts@) =~= receipts_of(
        all.take(0),
        Phase::PostTxInherents,
    ));
    let mut i: usize = 0;
    while i < receipts.receipts.len()
        invariant
            i <= receipts.receipts@.len(),
            all == receipts@,
            map_data(sender_receipts@) == receipts_of(all.take(i as int), Phase::Senders),
            map_data(recipient_receipts@) == receipts_of(all.take(i as int), Phase::Recipients),
            map_data(pre_tx_inherent_receipts@) == receipts_of(
                all.take(i as int),
                Phase::PreTxInherents,
            ),
            map_data(post_tx_inherent_receipts@) == receipts_of(
                all.take(i as int),
                Phase::PostTxInherents,
            ),
        decreases receipts.receipts@.len() - i,
    {
        let ghost senders = sender_receipts@;
        let ghost recipients = recipient_receipts@;
        let ghost pre = pre_tx_inherent_receipts@;
        let ghost post = post_tx_inherent_receipts@;
        proof {
            assert(all.take(i + 1).drop_last() =~= all.take(i as int));
            assert(all.take(i + 1).last() == receipts.receipts@[i as int]@);
        }
        match &receipts.receipts[i] {
            Receipt::Transaction { index, sender, data } => {
                if *sender {
                    sender_receipts.insert(*index, data);
                    assert(map_data(sender_receipts@) =~= map_data(senders).insert(*index, data@));
                } else {
                    recipient_receipts.insert(*index, data);
                    assert(map_data(recipient_receipts@) =~= map_data(recipients).insert(
                        *index,
                        data@,
                    ));
                }
            },
            Receipt::Inherent { index, pre_transactions, data } => {
                if *pre_transactions {
                    pre_tx_inherent_receipts.insert(*index, data);
                    assert(map_data(pre_tx_inherent_receipts@) =~= map_data(pre).insert(
                        *index,
                        data@,
                    ));
                } else {
                    post_tx_inherent_receipts.insert(*index, data);
                    assert(map_data(post_tx_inherent_receipts@) =~= map_data(post).insert(
                        *index,
                        data@,
                    ));
                }
            },
        }
        i += 1;
    }
    assert(all.take(i as int) =~= all);
    ReceiptMaps {
        sender_receipts,
        recipient_receipts,
        pre_tx_inherent_receipts,
        post_tx_inherent_receipts,
    }
}

} // verus!
