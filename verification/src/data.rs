//! Blocks, transactions and the messages that peers exchange.
use vstd::prelude::*;

verus! {

/// A SHA3-512 digest. Digests are ordered as their bytes are, first byte first.
#[derive(Clone, Copy, Debug, PartialEq, Eq)]
pub struct BlockHash {
    pub bytes: [u8; 64],
}

/// `a` comes no later than `b` in the lexicographic order of byte strings of one length.
pub open spec fn lex_at_most(a: Seq<u8>, b: Seq<u8>) -> bool {
    ||| a == b
    ||| exists|i: int|
        #![trigger a[i]]
        0 <= i < a.len() && a.take(i) == b.take(i) && a[i] < b[i]
}

/// The number that `bytes` stand for, first byte first.
pub open spec fn number(bytes: Seq<u8>) -> int
    decreases bytes.len(),
{
    if bytes.len() == 0 {
        0
    } else {
        256 * number(bytes.drop_last()) + bytes.last()
    }
}

/// A byte string stands for what its bytes are worth, each 256 times as much as the one behind
/// it. So two strings of one length that stand for the same number are the same.
pub proof fn law_bytes_are_digits(bytes: Seq<u8>, last: u8)
    ensures
        number(Seq::empty()) == 0,
        number(bytes.push(last)) == 256 * number(bytes) + last,
        bytes.len() > 0 ==> number(bytes) == 256 * number(bytes.drop_last()) + bytes[bytes.len()
            - 1],
        forall|other: Seq<u8>|
            other.len() == bytes.len() && #[trigger] number(other) == number(bytes) ==> other
                == bytes,
    decreases bytes.len(),
{
    assert(bytes.push(last).drop_last() =~= bytes);
    assert forall|other: Seq<u8>|
        other.len() == bytes.len() && #[trigger] number(other) == number(bytes) implies other
        == bytes by {
        if bytes.len() == 0 {
            assert(other =~= bytes);
        } else {
            law_bytes_are_digits(bytes.drop_last(), bytes.last());
            assert(number(other) == 256 * number(other.drop_last()) + other.last());
            assert(number(other.drop_last()) == number(bytes.drop_last()));
            assert(other =~= other.drop_last().push(other.last()));
            assert(bytes =~= bytes.drop_last().push(bytes.last()));
        }
    }
}

/// Digests are ordered as the numbers that their bytes stand for: `a` is at most `b` exactly if
/// it is the lesser number or the same.
pub proof fn law_digests_are_ordered_as_numbers(a: Seq<u8>, b: Seq<u8>)
    requires
        a.len() == b.len(),
    ensures
        lex_at_most(a, b) <==> number(a) <= number(b),
        number(a) == number(b) <==> a == b,
    decreases a.len(),
{
    law_bytes_are_digits(b, 0);
    if a.len() > 0 {
        let x = a.drop_last();
        let y = b.drop_last();
        let last = a.len() - 1;
        law_digests_are_ordered_as_numbers(x, y);
        assert(a.take(last) =~= x && b.take(last) =~= y);
        if lex_at_most(a, b) && a != b {
            let i = choose|i: int|
                #![trigger a[i]]
                0 <= i < a.len() && a.take(i) == b.take(i) && a[i] < b[i];
            if i < last {
                assert(x.take(i) =~= a.take(i) && y.take(i) =~= b.take(i));
                assert(x[i] < y[i]);
                assert(lex_at_most(x, y) && x != y);
            } else {
                assert(x == y);
            }
        }
        if number(a) < number(b) {
            if x == y {
                assert(a[last] < b[last]);
            } else {
                assert(lex_at_most(x, y));
                let i = choose|i: int|
                    #![trigger x[i]]
                    0 <= i < x.len() && x.take(i) == y.take(i) && x[i] < y[i];
                assert(x.take(i) =~= a.take(i) && y.take(i) =~= b.take(i));
                assert(a[i] < b[i]);
            }
        }
    }
}

/// Digests are ordered byte by byte: `a` is at most `b` exactly if no byte of `a` is greater
/// than that of `b` where the bytes before it agree.
pub proof fn law_digests_are_ordered_byte_by_byte(a: Seq<u8>, b: Seq<u8>)
    requires
        a.len() == b.len(),
    ensures
        lex_at_most(a, b) <==> forall|i: int|
            #![trigger a[i]]
            0 <= i < a.len() && (forall|j: int| 0 <= j < i ==> #[trigger] a[j] == b[j]) ==> a[i]
                <= b[i],
{
    if lex_at_most(a, b) {
        assert forall|i: int|
            #![trigger a[i]]
            0 <= i < a.len() && (forall|j: int| 0 <= j < i ==> #[trigger] a[j] == b[j]) implies a[i]
            <= b[i] by {
            if a != b {
                let k = choose|k: int|
                    #![trigger a[k]]
                    0 <= k < a.len() && a.take(k) == b.take(k) && a[k] < b[k];
                if i < k {
                    assert(a.take(k)[i] == b.take(k)[i]);
                } else if k < i {
                    assert(a[k] == b[k]);
                }
            }
        }
    } else {
        let k = first_difference(a, b);
        lemma_first_difference(a, b);
        assert(a.take(k) =~= b.take(k));
        assert(a[k] > b[k]);
    }
}

/// The place of the first byte in which `a` and `b` differ, if they do.
spec fn first_difference(a: Seq<u8>, b: Seq<u8>) -> int
    decreases a.len(),
{
    if a.len() == 0 || a[0] != b[0] {
        0
    } else {
        1 + first_difference(a.drop_first(), b.drop_first())
    }
}

proof fn lemma_first_difference(a: Seq<u8>, b: Seq<u8>)
    requires
        a.len() == b.len(),
        a != b,
    ensures
        0 <= first_difference(a, b) < a.len(),
        a[first_difference(a, b)] != b[first_difference(a, b)],
        forall|j: int| 0 <= j < first_difference(a, b) ==> #[trigger] a[j] == b[j],
    decreases a.len(),
{
    if a.len() == 0 {
        assert(a =~= b);
    } else if a[0] == b[0] {
        let x = a.drop_first();
        let y = b.drop_first();
        if x == y {
            assert(a =~= seq![a[0]] + x);
            assert(b =~= seq![b[0]] + y);
        }
        lemma_first_difference(x, y);
        let k = first_difference(x, y);
        assert(x[k] == a[k + 1] && y[k] == b[k + 1]);
        assert forall|j: int| 0 <= j < first_difference(a, b) implies #[trigger] a[j] == b[j] by {
            if j > 0 {
                assert(x[j - 1] == y[j - 1]);
            }
        }
    }
}

impl BlockHash {
    /// Whether this digest is not above `target`.
    pub fn at_most(&self, target: &BlockHash) -> (r: bool)
        ensures
            r == lex_at_most(self.bytes@, target.bytes@),
            r == (number(self.bytes@) <= number(target.bytes@)),
            r == forall|i: int|
                #![trigger self.bytes@[i]]
                0 <= i < 64 && (forall|j: int|
                    0 <= j < i ==> #[trigger] self.bytes@[j] == target.bytes@[j])
                    ==> self.bytes@[i] <= target.bytes@[i],
    {
        proof {
            law_digests_are_ordered_as_numbers(self.bytes@, target.bytes@);
            law_digests_are_ordered_byte_by_byte(self.bytes@, target.bytes@);
        }
        let mut i: usize = 0;
        while i < 64
            invariant
                i <= 64,
                self.bytes@.take(i as int) == target.bytes@.take(i as int),
            decreases 64 - i,
        {
            if self.bytes[i] != target.bytes[i] {
                proof {
                    let a = self.bytes@;
                    let b = target.bytes@;
                    law_digests_are_ordered_as_numbers(a, b);
                    law_digests_are_ordered_byte_by_byte(a, b);
                    if a[i as int] > b[i as int] {
                        assert(a != b);
                        assert forall|j: int|
                            #![trigger a[j]]
                            0 <= j < a.len() && a.take(j) == b.take(j) implies a[j] >= b[j] by {
                            if j > i {
                                assert(a.take(j)[i as int] == b.take(j)[i as int]);
                            } else if j < i {
                                assert(a.take(i as int)[j] == b.take(i as int)[j]);
                            }
                        }
                    }
                }
                return self.bytes[i] < target.bytes[i];
            }
            assert(self.bytes@.take(i + 1) =~= self.bytes@.take(i as int).push(self.bytes@[i as int]));
            assert(target.bytes@.take(i + 1) =~= target.bytes@.take(i as int).push(
                target.bytes@[i as int],
            ));
            i = i + 1;
        }
        assert(self.bytes@ =~= self.bytes@.take(64));
        assert(target.bytes@ =~= target.bytes@.take(64));
        true
    }
}

/// The holder of a wallet, known by a public RSA key.
#[derive(Debug, PartialEq, Eq)]
pub enum WalletId {
    /// The holder of the key that signed the first block of the chain.
    Genesis,
    /// The holder of this key, in Base64.
    Key(String),
}

impl WalletId {
    pub fn of_genesis() -> (r: WalletId)
        ensures
            r == WalletId::Genesis,
    {
        WalletId::Genesis
    }
}

impl Clone for WalletId {
    fn clone(&self) -> (r: Self)
        ensures
            r == *self,
    {
        match self {
            WalletId::Genesis => WalletId::Genesis,
            WalletId::Key(key) => WalletId::Key(key.clone()),
        }
    }
}

/// A point in time: seconds since the Unix epoch, and nanoseconds past that second.
#[derive(Clone, Copy, Debug, PartialEq, Eq)]
pub struct Timestamp {
    pub secs: i64,
    pub nanos: u32,
}

/// A length of time.
#[derive(Clone, Copy, Debug, PartialEq, Eq)]
pub struct Interval {
    pub secs: u64,
    pub nanos: u32,
}

impl Interval {
    /// The length of time in nanoseconds.
    pub open spec fn total_nanos(self) -> nat {
        (self.secs * 1_000_000_000 + self.nanos) as nat
    }

    pub fn from_secs(secs: u64) -> (r: Interval)
        ensures
            r.total_nanos() == secs * 1_000_000_000,
            r == (Interval { secs, nanos: 0 }),
    {
        Interval { secs, nanos: 0 }
    }

    pub fn is_zero(&self) -> (r: bool)
        ensures
            r == (self.total_nanos() == 0),
            r == (self.secs == 0 && self.nanos == 0),
    {
        self.secs == 0 && self.nanos == 0
    }
}

/// The length of an interval is that of its seconds and its nanoseconds together.
pub proof fn law_seconds_are_a_billion_nanoseconds(interval: Interval)
    ensures
        interval.total_nanos() == 1_000_000_000 * interval.secs + interval.nanos,
{
}

impl Default for Interval {
    fn default() -> (r: Self)
        ensures
            r.total_nanos() == 0,
            r == (Interval { secs: 0, nanos: 0 }),
    {
        Interval::from_secs(0)
    }
}

/// A transfer between two wallets.
#[derive(Debug, PartialEq, Eq)]
pub struct Transaction {
    pub amount: u64,
    pub fee: u64,
    pub comment: String,
    pub sender: WalletId,
    pub receiver: WalletId,
    pub signature: String,
}

impl Clone for Transaction {
    fn clone(&self) -> (r: Self)
        ensures
            r == *self,
    {
        Transaction {
            amount: self.amount,
            fee: self.fee,
            comment: self.comment.clone(),
            sender: self.sender.clone(),
            receiver: self.receiver.clone(),
            signature: self.signature.clone(),
        }
    }
}

/// A transaction whose signature has been checked.
#[derive(Debug, PartialEq, Eq)]
pub struct VerifiedTransaction {
    pub transaction: Transaction,
}

impl Clone for VerifiedTransaction {
    fn clone(&self) -> (r: Self)
        ensures
            r == *self,
    {
        VerifiedTransaction { transaction: self.transaction.clone() }
    }
}

/// Everything in a block but its transactions.
#[derive(Debug, PartialEq, Eq)]
pub struct BlockAttributes {
    pub index: u64,
    pub timestamp: Timestamp,
    pub reward: u64,
    pub nonce: u64,
    pub issuer: WalletId,
    pub max_hash: BlockHash,
    pub prev_hash: BlockHash,
}

impl Clone for BlockAttributes {
    fn clone(&self) -> (r: Self)
        ensures
            r == *self,
    {
        BlockAttributes {
            index: self.index,
            timestamp: self.timestamp,
            reward: self.reward,
            nonce: self.nonce,
            issuer: self.issuer.clone(),
            max_hash: self.max_hash,
            prev_hash: self.prev_hash,
        }
    }
}

#[derive(Debug, PartialEq, Eq)]
pub struct Block {
    pub attrs: BlockAttributes,
    pub transactions: Vec<Transaction>,
}

/// A block, with its transactions as a sequence.
pub struct BlockView {
    pub attrs: BlockAttributes,
    pub transactions: Seq<Transaction>,
}

impl View for Block {
    type V = BlockView;

    open spec fn view(&self) -> BlockView {
        BlockView { attrs: self.attrs, transactions: self.transactions@ }
    }
}

impl Clone for Block {
    fn clone(&self) -> (r: Self)
        ensures
            r@ == self@,
            r.attrs == self.attrs,
            r.transactions@ == self.transactions@,
    {
        let r = Block { attrs: self.attrs.clone(), transactions: self.transactions.clone() };
        assert(r.transactions@ =~= self.transactions@);
        r
    }
}

/// A block whose hash and contents have been checked, with that hash.
#[derive(Debug, PartialEq, Eq)]
pub struct VerifiedBlock {
    pub block: Block,
    pub hash: BlockHash,
}

pub struct VerifiedBlockView {
    pub block: BlockView,
    pub hash: BlockHash,
}

impl View for VerifiedBlock {
    type V = VerifiedBlockView;

    open spec fn view(&self) -> VerifiedBlockView {
        VerifiedBlockView { block: self.block@, hash: self.hash }
    }
}

impl Clone for VerifiedBlock {
    fn clone(&self) -> (r: Self)
        ensures
            r@ == self@,
            r.block.attrs == self.block.attrs,
            r.block.transactions@ == self.block.transactions@,
            r.hash == self.hash,
    {
        VerifiedBlock { block: self.block.clone(), hash: self.hash }
    }
}

/// What one peer tells another.
#[derive(Debug, PartialEq, Eq)]
pub enum VerifiedPeerMessage {
    /// The sender holds this block to be valid.
    Block(Box<VerifiedBlock>),
    /// The sender holds this transaction to be valid and in no block yet.
    Transaction(Box<VerifiedTransaction>),
    /// The sender asks for the block with this hash.
    Request { block_hash: BlockHash },
}

pub enum VerifiedPeerMessageView {
    Block(VerifiedBlockView),
    Transaction(VerifiedTransaction),
    Request { block_hash: BlockHash },
}

impl View for VerifiedPeerMessage {
    type V = VerifiedPeerMessageView;

    open spec fn view(&self) -> VerifiedPeerMessageView {
        match self {
            VerifiedPeerMessage::Block(block) => VerifiedPeerMessageView::Block((*block)@),
            VerifiedPeerMessage::Transaction(tx) => VerifiedPeerMessageView::Transaction(**tx),
            VerifiedPeerMessage::Request { block_hash } => VerifiedPeerMessageView::Request {
                block_hash: *block_hash,
            },
        }
    }
}

impl Clone for VerifiedPeerMessage {
    fn clone(&self) -> (r: Self)
        ensures
            r@ == self@,
            match *self {
                VerifiedPeerMessage::Block(block) => {
                    &&& r is Block
                    &&& r->Block_0.block.attrs == block.block.attrs
                    &&& r->Block_0.block.transactions@ == block.block.transactions@
                    &&& r->Block_0.hash == block.hash
                },
                VerifiedPeerMessage::Transaction(tx) => r is Transaction && *r->Transaction_0 == *tx,
                VerifiedPeerMessage::Request { block_hash } => r
                    == VerifiedPeerMessage::Request { block_hash },
            },
    {
        match self {
            VerifiedPeerMessage::Block(block) => VerifiedPeerMessage::Block(
                Box::new((**block).clone()),
            ),
            VerifiedPeerMessage::Transaction(tx) => VerifiedPeerMessage::Transaction(
                Box::new((**tx).clone()),
            ),
            VerifiedPeerMessage::Request { block_hash } => VerifiedPeerMessage::Request {
                block_hash: *block_hash,
            },
        }
    }
}

/// The view of a message shows all of it: which kind of message it is, and each part of the
/// block, the transaction or the hash that it holds. So messages with the same view say the
/// same.
pub proof fn law_views_show_everything(
    message: VerifiedPeerMessage,
    block: VerifiedBlock,
    unverified: Block,
)
    ensures
        unverified@.attrs == unverified.attrs,
        unverified@.transactions == unverified.transactions@,
        block@.hash == block.hash,
        block@.block.attrs == block.block.attrs,
        block@.block.transactions == block.block.transactions@,
        message@ is Block <==> message is Block,
        message@ is Transaction <==> message is Transaction,
        message@ is Request <==> message is Request,
        message is Block ==> {
            let shown = message@->Block_0;
            let held = *message->Block_0;
            &&& shown.hash == held.hash
            &&& shown.block.attrs == held.block.attrs
            &&& shown.block.transactions == held.block.transactions@
        },
        message is Transaction ==> message@->Transaction_0 == *message->Transaction_0,
        message is Request ==> message@->block_hash == message->block_hash,
{
}

} // verus!
