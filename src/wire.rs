//! The peer wire protocol: handshake, length-prefixed messages, the plan of
//! block requests, and the receive side that assembles pieces.
use vstd::prelude::*;
use vstd::string::StringSliceAdditionalSpecFns;
use crate::peer::opt_bytes;
use crate::torrent::ceil_div;
use crate::tree::bytes_eq;

verus! {

/// Size of a requested block.
pub const BLOCK_SIZE: u64 = 4096;

/// Message type: the sender no longer chokes the receiver.
pub const MSG_UNCHOKE: u8 = 1;

/// Message type: the sender wants data.
pub const MSG_INTERESTED: u8 = 2;

/// Message type: which pieces the sender has.
pub const MSG_BITFIELD: u8 = 5;

/// Message type: a block request.
pub const MSG_REQUEST: u8 = 6;

/// Message type: a block of data.
pub const MSG_PIECE: u8 = 7;

/// Why a connection was given up.
#[derive(Debug, Clone, Copy, PartialEq, Eq, Structural)]
pub enum WireError {
    /// The connection could not be opened, or reading or writing failed.
    ConnectionError,
    /// The peer broke the protocol.
    ProtocolViolation,
}

/// Four bytes of a 32-bit number, most significant first.
pub open spec fn be32(n: u32) -> Seq<u8> {
    seq![
        (n / 16777216) as u8,
        ((n / 65536) % 256) as u8,
        ((n / 256) % 256) as u8,
        (n % 256) as u8,
    ]
}

/// The number that four bytes hold, most significant first.
pub open spec fn be32_value(b: Seq<u8>) -> int {
    b[0] as int * 16777216 + b[1] as int * 65536 + b[2] as int * 256 + b[3] as int
}

/// The handshake: protocol-name length, protocol name, eight reserved zero
/// bytes, identity hash, and peer identifier.
pub open spec fn handshake_bytes(infohash: Seq<u8>, peer_id: Seq<u8>) -> Seq<u8> {
    seq![19u8] + "BitTorrent protocol".spec_bytes() + Seq::new(8, |i: int| 0u8) + infohash
        + peer_id
}

/// A framed message: its length in four bytes, then its type and payload.
pub open spec fn frame_bytes(id: u8, payload: Seq<u8>) -> Seq<u8> {
    be32((payload.len() + 1) as u32) + seq![id] + payload
}

/// The zero-length keep-alive frame.
pub open spec fn keep_alive_bytes() -> Seq<u8> {
    seq![0u8, 0u8, 0u8, 0u8]
}

/// Writes the four bytes of `n` to `out`.
pub fn push_be32(out: &mut Vec<u8>, n: u32)
    ensures
        final(out)@ == old(out)@ + be32(n),
{
    out.push((n / 16777216) as u8);
    out.push(((n / 65536) % 256) as u8);
    out.push(((n / 256) % 256) as u8);
    out.push((n % 256) as u8);
    assert(final(out)@ =~= old(out)@ + be32(n));
}

/// Reads a 32-bit number from four bytes at `b[at]`.
pub fn read_be32(b: &[u8], at: usize) -> (r: u32)
    requires
        at + 4 <= b@.len(),
    ensures
        r == be32_value(b@.subrange(at as int, at + 4)),
{
    let r = (b[at] as u32) * 16777216 + (b[at + 1] as u32) * 65536 + (b[at + 2] as u32) * 256
        + (b[at + 3] as u32);
    r
}

/// The handshake that opens a connection.
pub fn handshake(infohash: &[u8], peer_id: &[u8]) -> (r: Vec<u8>)
    requires
        infohash@.len() == 20,
        peer_id@.len() == 20,
    ensures
        r@ == handshake_bytes(infohash@, peer_id@),
        r@.len() == 68,
{
    let mut out: Vec<u8> = Vec::new();
    out.push(19u8);
    let name = "BitTorrent protocol".as_bytes();
    let mut i: usize = 0;
    while i < name.len()
        invariant
            name@ == "BitTorrent protocol".spec_bytes(),
            i <= name@.len(),
            out@ == seq![19u8] + name@.take(i as int),
        decreases name.len() - i,
    {
        out.push(name[i]);
        i += 1;
        assert(out@ =~= seq![19u8] + name@.take(i as int));
    }
    assert(name@.take(name@.len() as int) =~= name@);
    let mut k: usize = 0;
    while k < 8
        invariant
            k <= 8,
            out@ == seq![19u8] + name@ + Seq::new(k as nat, |j: int| 0u8),
        decreases 8 - k,
    {
        out.push(0u8);
        k += 1;
        assert(out@ =~= seq![19u8] + name@ + Seq::new(k as nat, |j: int| 0u8));
    }
    let mut h = vstd::slice::slice_to_vec(infohash);
    out.append(&mut h);
    let mut p = vstd::slice::slice_to_vec(peer_id);
    out.append(&mut p);
    proof {
        reveal_strlit("BitTorrent protocol");
        vstd::string::is_ascii_spec_bytes("BitTorrent protocol");
    }
    assert(out@ =~= handshake_bytes(infohash@, peer_id@));
    out
}

/// What a valid handshake reply holds: a protocol-name length `p`, then `p`
/// name bytes, eight reserved bytes, the identity hash and the peer's
/// identifier. It is accepted when the hash is ours; then the identifier is
/// returned.
pub open spec fn reply_ok(reply: Seq<u8>, infohash: Seq<u8>) -> bool {
    reply.len() > 0 && reply.len() == 49 + reply[0] && reply.subrange(
        9 + reply[0] as int,
        29 + reply[0] as int,
    ) == infohash
}

/// Checks a peer's handshake reply against our identity hash.
pub fn check_handshake(reply: &[u8], infohash: &[u8]) -> (r: Result<Vec<u8>, WireError>)
    ensures
        r is Ok <==> reply_ok(reply@, infohash@),
        r matches Err(e) ==> e == WireError::ProtocolViolation,
        r matches Ok(id) ==> id@ == reply@.subrange(29 + reply@[0] as int, 49 + reply@[0] as int),
{
    if reply.len() == 0 {
        return Err(WireError::ProtocolViolation);
    }
    let p = reply[0] as usize;
    if reply.len() != 49 + p {
        return Err(WireError::ProtocolViolation);
    }
    let (_, rest) = reply.split_at(9 + p);
    let (hash, id) = rest.split_at(20);
    assert(hash@ =~= reply@.subrange(9 + p as int, 29 + p as int));
    assert(id@ =~= reply@.subrange(29 + p as int, 49 + p as int));
    if !bytes_eq(hash, infohash) {
        return Err(WireError::ProtocolViolation);
    }
    Ok(vstd::slice::slice_to_vec(id))
}

/// A framed message with the given type and payload.
pub fn frame(id: u8, payload: &[u8]) -> (r: Vec<u8>)
    requires
        payload@.len() < u32::MAX,
    ensures
        r@ == frame_bytes(id, payload@),
{
    let mut out: Vec<u8> = Vec::new();
    push_be32(&mut out, (payload.len() + 1) as u32);
    out.push(id);
    let mut p = vstd::slice::slice_to_vec(payload);
    out.append(&mut p);
    assert(out@ =~= frame_bytes(id, payload@));
    out
}

/// The zero-length keep-alive frame.
pub fn keep_alive() -> (r: Vec<u8>)
    ensures
        r@ == keep_alive_bytes(),
{
    let mut out: Vec<u8> = Vec::new();
    push_be32(&mut out, 0);
    assert(out@ =~= keep_alive_bytes());
    out
}

/// The `unchoke` and `interested` messages that follow the handshake.
pub fn unchoke_interested() -> (r: Vec<u8>)
    ensures
        r@ == frame_bytes(MSG_UNCHOKE, Seq::empty()) + frame_bytes(MSG_INTERESTED, Seq::empty()),
{
    let empty: Vec<u8> = Vec::new();
    let mut out = frame(MSG_UNCHOKE, empty.as_slice());
    let mut second = frame(MSG_INTERESTED, empty.as_slice());
    out.append(&mut second);
    assert(empty@ =~= Seq::<u8>::empty());
    out
}

/// A request for one block of a piece.
#[derive(Debug, Clone, Copy, PartialEq, Eq, Structural)]
pub struct BlockRequest {
    pub index: u32,
    pub offset: u32,
    pub length: u32,
}

/// The `request` message for a block: piece index, offset and length.
pub open spec fn request_bytes(r: BlockRequest) -> Seq<u8> {
    frame_bytes(MSG_REQUEST, be32(r.index) + be32(r.offset) + be32(r.length))
}

impl BlockRequest {
    /// The `request` message for this block.
    pub fn encode(&self) -> (r: Vec<u8>)
        ensures
            r@ == request_bytes(*self),
    {
        let mut payload: Vec<u8> = Vec::new();
        push_be32(&mut payload, self.index);
        push_be32(&mut payload, self.offset);
        push_be32(&mut payload, self.length);
        frame(MSG_REQUEST, payload.as_slice())
    }
}

/// Size of piece `i` of a payload of `total` bytes cut in pieces of `plen`
/// bytes: `plen`, but shorter for the last piece.
pub open spec fn piece_size(total: nat, plen: nat, i: nat) -> nat {
    if (i + 1) * plen <= total {
        plen
    } else if i * plen < total {
        (total - i * plen) as nat
    } else {
        0
    }
}

/// The `k`-th block request of a piece: offset `k * BLOCK_SIZE`, length
/// `BLOCK_SIZE`.
pub open spec fn block_of(index: u32, k: int) -> BlockRequest {
    BlockRequest { index, offset: (k * BLOCK_SIZE) as u32, length: BLOCK_SIZE as u32 }
}

/// Number of block offsets `0, BLOCK_SIZE, 2 * BLOCK_SIZE, ...` below
/// `piece_length`.
pub open spec fn block_count(piece_length: nat) -> nat {
    if piece_length % 4096 == 0 { piece_length / 4096 } else { piece_length / 4096 + 1 }
}

/// The requests of one piece: a `BLOCK_SIZE` block at every offset
/// `0, BLOCK_SIZE, ...` below `piece_length`, in offset order.
pub open spec fn piece_blocks(index: u32, piece_length: nat) -> Seq<BlockRequest> {
    Seq::new(block_count(piece_length), |k: int| block_of(index, k))
}

/// The requests of pieces `0..n`, piece after piece in index order, with no
/// selection among pieces.
pub open spec fn plan_of(piece_length: nat, n: nat) -> Seq<BlockRequest>
    decreases n,
{
    if n == 0 {
        Seq::empty()
    } else {
        plan_of(piece_length, (n - 1) as nat) + piece_blocks((n - 1) as u32, piece_length)
    }
}

/// The requests of piece `index`: a `BLOCK_SIZE` block at every offset
/// below `piece_length`.
pub fn piece_requests(index: u32, piece_length: u32) -> (r: Vec<BlockRequest>)
    ensures
        r@ == piece_blocks(index, piece_length as nat),
{
    let mut out: Vec<BlockRequest> = Vec::new();
    let mut offset: u64 = 0;
    while offset < piece_length as u64
        invariant
            offset as int == out@.len() * BLOCK_SIZE,
            offset <= piece_length as u64 + BLOCK_SIZE,
            out@.len() * BLOCK_SIZE < piece_length + BLOCK_SIZE,
            forall|k: int| 0 <= k < out@.len() ==> #[trigger] out@[k] == block_of(index, k),
        decreases piece_length as u64 + BLOCK_SIZE - offset,
    {
        out.push(BlockRequest { index, offset: offset as u32, length: BLOCK_SIZE as u32 });
        offset = offset + BLOCK_SIZE;
    }
    assert(out@.len() == (if piece_length as int % 4096 == 0 {
        piece_length as int / 4096
    } else {
        piece_length as int / 4096 + 1
    })) by (nonlinear_arith)
        requires
            out@.len() * 4096 >= piece_length,
            out@.len() * 4096 < piece_length + 4096,
    ;
    assert(out@ =~= piece_blocks(index, piece_length as nat));
    out
}

/// A piece being assembled: its bytes, and how far into it data has been
/// written.
#[derive(Debug)]
pub struct PieceBuffer {
    pub data: Vec<u8>,
    pub offset: u64,
}

/// The bytes of a list of pieces, in index order.
pub open spec fn joined(ps: Seq<PieceBuffer>) -> Seq<u8>
    decreases ps.len(),
{
    if ps.len() == 0 { Seq::empty() } else { joined(ps.drop_last()) + ps.last().data@ }
}

proof fn lemma_joined_len(ps: Seq<PieceBuffer>, total: nat, plen: nat, n: nat)
    requires
        plen > 0,
        n <= ps.len(),
        ps.len() == 0 || (ps.len() - 1) * plen < total,
        forall|i: int| 0 <= i < ps.len() ==> (#[trigger] ps[i]).data@.len() == piece_size(total, plen, i as nat),
    ensures
        joined(ps.take(n as int)).len() == (if n * plen <= total { n * plen } else { total }),
    decreases n,
{
    if n == 0 {
        assert(ps.take(0) =~= Seq::<PieceBuffer>::empty());
        assert(0 * plen == 0) by (nonlinear_arith);
    } else {
        let m = (n - 1) as nat;
        lemma_joined_len(ps, total, plen, m);
        assert(ps.take(n as int).drop_last() =~= ps.take(m as int));
        assert(m * plen <= (ps.len() - 1) * plen) by (nonlinear_arith)
            requires
                m <= ps.len() - 1,
        ;
        assert(n * plen == m * plen + plen) by (nonlinear_arith)
            requires
                n == m + 1,
        ;
    }
}

/// On a well-formed receive side the piece buffers together hold exactly
/// the payload size: the assembled payload has the payload's length.
pub proof fn lemma_assembled_length(r: Receiver)
    requires
        r.wf(),
    ensures
        joined(r.spec_pieces()).len() == r.spec_total(),
{
    let ps = r.spec_pieces();
    lemma_joined_len(ps, r.spec_total(), r.spec_piece_length(), ps.len());
    assert(ps.take(ps.len() as int) =~= ps);
    if ps.len() * r.spec_piece_length() <= r.spec_total() {
        assert(ps.len() * r.spec_piece_length() == r.spec_total());
    }
}

/// A well-formed receive side holds one buffer per piece: the payload size
/// divided by the piece length, rounded up.
pub proof fn lemma_piece_count(r: Receiver)
    requires
        r.wf(),
    ensures
        r.spec_pieces().len() == ceil_div(r.spec_total(), r.spec_piece_length()),
{
    let n = r.spec_pieces().len() as int;
    let t = r.spec_total() as int;
    let p = r.spec_piece_length() as int;
    let q = t / p;
    let m = t % p;
    assert(t == q * p + m && 0 <= m < p) by (nonlinear_arith)
        requires
            p > 0,
            q == t / p,
            m == t % p,
    ;
    if n == 0 {
        assert(0 * p == 0) by (nonlinear_arith);
        assert(t == 0);
    } else {
        assert(n * p >= t);
        assert((n - 1) * p < t);
        if m == 0 {
            assert(n == q) by (nonlinear_arith)
                requires
                    n * p >= q * p,
                    (n - 1) * p < q * p,
                    p > 0,
            ;
        } else {
            assert(n == q + 1) by (nonlinear_arith)
                requires
                    n * p >= q * p + m,
                    (n - 1) * p < q * p + m,
                    0 < m < p,
            ;
        }
    }
}

/// What the receive side does after a message.
#[derive(Debug, Clone, Copy, PartialEq, Eq, Structural)]
pub enum Action {
    /// Read the next message.
    Continue,
    /// Answer a keep-alive with a keep-alive, then read on.
    SendKeepAlive,
    /// The whole payload has arrived.
    Complete,
}

/// The receive side of an exchange: one buffer per piece and a count of the
/// bytes received.
#[derive(Debug)]
pub struct Receiver {
    pieces: Vec<PieceBuffer>,
    total: u64,
    piece_length: u64,
    received: u64,
}

/// `data` written into `buf` at `offset`.
pub open spec fn written(buf: Seq<u8>, offset: int, data: Seq<u8>) -> Seq<u8> {
    buf.take(offset) + data + buf.skip(offset + data.len())
}

/// `a + b`, or the largest 64-bit count when the sum does not fit.
pub open spec fn saturating_sum(a: nat, b: nat) -> nat {
    if a + b <= u64::MAX { a + b } else { u64::MAX as nat }
}

/// The piece message a frame body holds, if it is a piece message: piece
/// index, offset and block data.
pub open spec fn piece_message(body: Seq<u8>) -> Option<(int, int, Seq<u8>)> {
    if body.len() >= 9 && body[0] == MSG_PIECE {
        Some((be32_value(body.subrange(1, 5)), be32_value(body.subrange(5, 9)), body.skip(9)))
    } else {
        None
    }
}

/// One frame handled by the receive side: `pre` before, `post` after, `r`
/// what was decided.
pub open spec fn frame_step(
    pre: Receiver,
    post: Receiver,
    body: Seq<u8>,
    r: Result<Action, WireError>,
) -> bool {
    &&& post.spec_total() == pre.spec_total()
    &&& post.spec_piece_length() == pre.spec_piece_length()
    &&& body.len() == 0 ==> r == Ok::<Action, WireError>(Action::SendKeepAlive) && post == pre
    &&& body.len() > 0 && body[0] != MSG_PIECE ==> r == Ok::<Action, WireError>(Action::Continue)
        && post == pre
    &&& body.len() > 0 && body[0] == MSG_PIECE && piece_message(body) is None ==> r == Err::<
        Action,
        WireError,
    >(WireError::ProtocolViolation) && post == pre
    &&& piece_message(body) matches Some((index, offset, data)) ==> {
        if 0 <= index < pre.spec_pieces().len() && offset + data.len()
            <= pre.spec_pieces()[index].data@.len() {
            &&& post.spec_pieces().len() == pre.spec_pieces().len()
            &&& forall|i: int|
                0 <= i < pre.spec_pieces().len() && i != index ==> #[trigger] post.spec_pieces()[i]
                    == pre.spec_pieces()[i]
            &&& post.spec_pieces()[index].data@ == written(pre.spec_pieces()[index].data@, offset, data)
            &&& post.spec_pieces()[index].offset == (if offset + data.len()
                > pre.spec_pieces()[index].offset {
                offset + data.len()
            } else {
                pre.spec_pieces()[index].offset as int
            })
            &&& post.spec_received() == saturating_sum(pre.spec_received(), data.len())
            &&& r == Ok::<Action, WireError>(
                if post.spec_received() >= pre.spec_total() {
                    Action::Complete
                } else {
                    Action::Continue
                },
            )
        } else {
            &&& r == Err::<Action, WireError>(WireError::ProtocolViolation)
            &&& post == pre
        }
    }
}

impl Receiver {
    /// The piece buffers.
    pub closed spec fn spec_pieces(&self) -> Seq<PieceBuffer> {
        self.pieces@
    }

    /// Bytes received so far.
    pub closed spec fn spec_received(&self) -> nat {
        self.received as nat
    }

    /// Payload size.
    pub closed spec fn spec_total(&self) -> nat {
        self.total as nat
    }

    /// Piece length.
    pub closed spec fn spec_piece_length(&self) -> nat {
        self.piece_length as nat
    }

    /// Well-formed: one buffer per piece, each sized to its piece.
    pub open spec fn wf(&self) -> bool {
        &&& self.spec_piece_length() > 0
        &&& self.spec_pieces().len() * self.spec_piece_length() >= self.spec_total()
        &&& self.spec_pieces().len() == 0 || (self.spec_pieces().len() - 1)
            * self.spec_piece_length() < self.spec_total()
        &&& forall|i: int|
            0 <= i < self.spec_pieces().len() ==> (#[trigger] self.spec_pieces()[i]).data@.len()
                == piece_size(self.spec_total(), self.spec_piece_length(), i as nat)
    }

    /// Empty buffers for a payload of `total` bytes in pieces of
    /// `piece_length` bytes (the last piece may be shorter).
    pub fn new(total: u64, piece_length: u64) -> (r: Receiver)
        requires
            piece_length > 0,
            total + piece_length <= usize::MAX,
        ensures
            r.wf(),
            r.spec_total() == total,
            r.spec_piece_length() == piece_length,
            r.spec_received() == 0,
            forall|i: int|
                0 <= i < r.spec_pieces().len() ==> (#[trigger] r.spec_pieces()[i]).offset == 0,
    {
        let mut pieces: Vec<PieceBuffer> = Vec::new();
        let mut start: u64 = 0;
        assert(pieces@.len() * piece_length == 0) by (nonlinear_arith)
            requires
                pieces@.len() == 0,
        ;
        while start < total
            invariant
                piece_length > 0,
                total + piece_length <= usize::MAX,
                start as int == pieces@.len() * piece_length,
                start <= total + piece_length,
                pieces@.len() == 0 || (pieces@.len() - 1) * piece_length < total,
                forall|i: int|
                    0 <= i < pieces@.len() ==> (#[trigger] pieces@[i]).data@.len() == piece_size(
                        total as nat,
                        piece_length as nat,
                        i as nat,
                    ) && pieces@[i].offset == 0,
            decreases total + piece_length - start,
        {
            let size = if total - start >= piece_length { piece_length } else { total - start };
            let mut data: Vec<u8> = Vec::new();
            let mut k: u64 = 0;
            while k < size
                invariant
                    k <= size,
                    data@.len() == k,
                decreases size - k,
            {
                data.push(0u8);
                k += 1;
            }
            let ghost n = pieces@.len();
            assert((n + 1) * piece_length == n * piece_length + piece_length) by (nonlinear_arith);
            pieces.push(PieceBuffer { data, offset: 0 });
            start = start + piece_length;
        }
        Receiver { pieces, total, piece_length, received: 0 }
    }

    /// Handles the body of one incoming frame (the bytes after its length).
    /// An empty body is a keep-alive; a message of another type than
    /// `piece` is skipped; a piece message writes its block into its piece.
    pub fn handle_frame(&mut self, body: &[u8]) -> (r: Result<Action, WireError>)
        requires
            old(self).wf(),
        ensures
            final(self).wf(),
            frame_step(*old(self), *final(self), body@, r),
    {
        if body.len() == 0 {
            return Ok(Action::SendKeepAlive);
        }
        if body[0] != MSG_PIECE {
            return Ok(Action::Continue);
        }
        if body.len() < 9 {
            return Err(WireError::ProtocolViolation);
        }
        let index = read_be32(body, 1) as usize;
        let offset = read_be32(body, 5) as usize;
        let blen = body.len();
        let n = blen - 9;
        if index >= self.pieces.len() {
            return Err(WireError::ProtocolViolation);
        }
        let size = self.pieces[index].data.len();
        if offset > size || n > size - offset {
            return Err(WireError::ProtocolViolation);
        }
        let ghost old_pieces = self.pieces@;
        let ghost old_data = self.pieces@[index as int].data@;
        let mut piece = PieceBuffer { data: Vec::new(), offset: 0 };
        std::mem::swap(&mut piece, &mut self.pieces[index]);
        let mut k: usize = 0;
        while k < n
            invariant
                blen == body@.len(),
                n == body@.len() - 9,
                size == old_data.len(),
                piece.offset == old_pieces[index as int].offset,
                offset + n <= size,
                piece.data@.len() == old_data.len(),
                k <= n,
                piece.data@ == old_data.take(offset as int) + body@.subrange(9, 9 + k as int)
                    + old_data.skip(offset + k),
            decreases n - k,
        {
            piece.data.set(offset + k, body[9 + k]);
            k += 1;
            assert(piece.data@ =~= old_data.take(offset as int) + body@.subrange(9, 9 + k as int)
                + old_data.skip(offset + k));
        }
        assert(body@.subrange(9, 9 + n as int) =~= body@.skip(9));
        let end = (offset + n) as u64;
        if end > piece.offset {
            piece.offset = end;
        }
        std::mem::swap(&mut piece, &mut self.pieces[index]);
        assert(self.pieces@ =~= old_pieces.update(index as int, self.pieces@[index as int]));
        self.received = self.received.saturating_add(n as u64);
        if self.received >= self.total {
            Ok(Action::Complete)
        } else {
            Ok(Action::Continue)
        }
    }

    /// The assembled payload: the piece buffers in index order.
    pub fn payload(&self) -> (r: Vec<u8>)
        requires
            self.wf(),
        ensures
            r@ == joined(self.spec_pieces()),
            r@.len() == self.spec_total(),
    {
        proof {
            lemma_assembled_length(*self);
        }
        let mut out: Vec<u8> = Vec::new();
        let mut i: usize = 0;
        while i < self.pieces.len()
            invariant
                i <= self.pieces@.len(),
                out@ == joined(self.pieces@.take(i as int)),
            decreases self.pieces.len() - i,
        {
            assert(self.pieces@.take(i + 1).drop_last() =~= self.pieces@.take(i as int));
            let mut d = self.pieces[i].data.clone();
            out.append(&mut d);
            i += 1;
        }
        assert(self.pieces@.take(self.pieces.len() as int) =~= self.pieces@);
        out
    }

    /// Size of piece `index`.
    pub fn piece_size(&self, index: usize) -> (r: usize)
        requires
            index < self.spec_pieces().len(),
        ensures
            r == self.spec_pieces()[index as int].data@.len(),
    {
        self.pieces[index].data.len()
    }

    /// Bytes received so far.
    pub fn received(&self) -> (r: u64)
        ensures
            r == self.spec_received(),
    {
        self.received
    }

    /// Number of pieces.
    pub fn num_pieces(&self) -> (r: usize)
        ensures
            r == self.spec_pieces().len(),
    {
        self.pieces.len()
    }
}

/// Where a connection to one peer stands.
#[derive(Debug, Clone, Copy, PartialEq, Eq, Structural)]
pub enum ConnState {
    Connecting,
    HandshakeSent,
    HandshakeVerified,
    BitfieldReceived,
    Exchanging,
    Complete,
    Aborted(WireError),
}

/// The decisions of one connection to one peer. The caller owns the socket:
/// it sends what the methods hand back and reports what it read. Requests
/// are planned per piece with `piece_requests` and sent independently.
#[derive(Debug)]
pub struct PeerConnection {
    state: ConnState,
    infohash: Vec<u8>,
    local_id: Vec<u8>,
    remote_id: Option<Vec<u8>>,
    receiver: Receiver,
}

/// Whether a state is final.
pub open spec fn is_terminal(s: ConnState) -> bool {
    s is Complete || s is Aborted
}

impl PeerConnection {
    /// Where the connection stands.
    pub closed spec fn spec_state(&self) -> ConnState {
        self.state
    }

    /// The receive side.
    pub closed spec fn spec_receiver(&self) -> Receiver {
        self.receiver
    }

    /// The peer's identifier, once its handshake is verified.
    pub closed spec fn spec_remote_id(&self) -> Option<Seq<u8>> {
        opt_bytes(self.remote_id)
    }

    /// Our identity hash.
    pub closed spec fn spec_infohash(&self) -> Seq<u8> {
        self.infohash@
    }

    /// Our peer identifier.
    pub closed spec fn spec_local_id(&self) -> Seq<u8> {
        self.local_id@
    }

    /// Well-formed: 20-byte identities and a well-formed receive side.
    pub open spec fn wf(&self) -> bool {
        &&& self.spec_infohash().len() == 20
        &&& self.spec_local_id().len() == 20
        &&& self.spec_receiver().wf()
    }

    /// A connection not yet opened, for a payload of `total` bytes in pieces
    /// of `piece_length` bytes.
    pub fn new(infohash: Vec<u8>, local_id: Vec<u8>, total: u64, piece_length: u64) -> (r:
        PeerConnection)
        requires
            infohash@.len() == 20,
            local_id@.len() == 20,
            piece_length > 0,
            total + piece_length <= usize::MAX,
        ensures
            r.wf(),
            r.spec_state() == ConnState::Connecting,
            r.spec_infohash() == infohash@,
            r.spec_local_id() == local_id@,
            r.spec_receiver().spec_total() == total,
            r.spec_receiver().spec_piece_length() == piece_length,
            r.spec_receiver().spec_received() == 0,
            r.spec_receiver().spec_pieces().len() == ceil_div(total as nat, piece_length as nat),
    {
        let receiver = Receiver::new(total, piece_length);
        proof {
            lemma_piece_count(receiver);
        }
        PeerConnection {
            state: ConnState::Connecting,
            infohash,
            local_id,
            remote_id: None,
            receiver,
        }
    }

    /// Where the connection stands.
    pub fn state(&self) -> (r: ConnState)
        ensures
            r == self.spec_state(),
    {
        self.state
    }

    /// The connection is open: the handshake to send.
    pub fn on_connected(&mut self) -> (r: Vec<u8>)
        requires
            old(self).wf(),
            old(self).spec_state() == ConnState::Connecting,
        ensures
            final(self).wf(),
            final(self).spec_state() == ConnState::HandshakeSent,
            final(self).spec_receiver() == old(self).spec_receiver(),
            final(self).spec_infohash() == old(self).spec_infohash(),
            r@ == handshake_bytes(old(self).spec_infohash(), old(self).spec_local_id()),
    {
        self.state = ConnState::HandshakeSent;
        handshake(self.infohash.as_slice(), self.local_id.as_slice())
    }

    /// The peer's handshake reply arrived. When it names our identity hash,
    /// the `unchoke` and `interested` messages to send come back; otherwise
    /// the connection is aborted and nothing is to be sent.
    pub fn on_handshake(&mut self, reply: &[u8]) -> (r: Option<Vec<u8>>)
        requires
            old(self).wf(),
            old(self).spec_state() == ConnState::HandshakeSent,
        ensures
            final(self).wf(),
            final(self).spec_receiver() == old(self).spec_receiver(),
            final(self).spec_infohash() == old(self).spec_infohash(),
            reply_ok(reply@, old(self).spec_infohash()) ==> {
                &&& final(self).spec_state() == ConnState::HandshakeVerified
                &&& final(self).spec_remote_id() == Some(
                    reply@.subrange(29 + reply@[0] as int, 49 + reply@[0] as int),
                )
                &&& r matches Some(m) && m@ == frame_bytes(MSG_UNCHOKE, Seq::empty())
                    + frame_bytes(MSG_INTERESTED, Seq::empty())
            },
            !reply_ok(reply@, old(self).spec_infohash()) ==> {
                &&& final(self).spec_state() == ConnState::Aborted(WireError::ProtocolViolation)
                &&& r is None
            },
    {
        match check_handshake(reply, self.infohash.as_slice()) {
            Ok(id) => {
                self.remote_id = Some(id);
                self.state = ConnState::HandshakeVerified;
                Some(unchoke_interested())
            },
            Err(e) => {
                self.state = ConnState::Aborted(e);
                None
            },
        }
    }

    /// The first message after the handshake arrived (its body, after the
    /// length): it must be a `bitfield`, whose contents are not used.
    pub fn on_first_message(&mut self, body: &[u8])
        requires
            old(self).wf(),
            old(self).spec_state() == ConnState::HandshakeVerified,
        ensures
            final(self).wf(),
            final(self).spec_receiver() == old(self).spec_receiver(),
            final(self).spec_infohash() == old(self).spec_infohash(),
            final(self).spec_state() == (if body@.len() > 0 && body@[0] == MSG_BITFIELD {
                ConnState::BitfieldReceived
            } else {
                ConnState::Aborted(WireError::ProtocolViolation)
            }),
    {
        if body.len() > 0 && body[0] == MSG_BITFIELD {
            self.state = ConnState::BitfieldReceived;
        } else {
            self.state = ConnState::Aborted(WireError::ProtocolViolation);
        }
    }

    /// Data exchange begins: requests may go out and blocks come in.
    pub fn start_exchange(&mut self)
        requires
            old(self).wf(),
            old(self).spec_state() == ConnState::BitfieldReceived,
        ensures
            final(self).wf(),
            final(self).spec_receiver() == old(self).spec_receiver(),
            final(self).spec_infohash() == old(self).spec_infohash(),
            final(self).spec_state() == ConnState::Exchanging,
    {
        self.state = ConnState::Exchanging;
    }

    /// A frame body arrived during the exchange. The receive side handles it
    /// (see `frame_step`); the whole payload moves the connection to
    /// `Complete`, a broken piece message aborts it.
    pub fn on_frame(&mut self, body: &[u8]) -> (r: Result<Action, WireError>)
        requires
            old(self).wf(),
            old(self).spec_state() == ConnState::Exchanging,
        ensures
            final(self).wf(),
            final(self).spec_infohash() == old(self).spec_infohash(),
            frame_step(old(self).spec_receiver(), final(self).spec_receiver(), body@, r),
            final(self).spec_state() == (match r {
                Ok(Action::Complete) => ConnState::Complete,
                Ok(_) => ConnState::Exchanging,
                Err(e) => ConnState::Aborted(e),
            }),
    {
        let r = self.receiver.handle_frame(body);
        match r {
            Ok(Action::Complete) => {
                self.state = ConnState::Complete;
            },
            Ok(_) => {},
            Err(e) => {
                self.state = ConnState::Aborted(e);
            },
        }
        r
    }

    /// Opening, reading or writing failed.
    pub fn on_io_error(&mut self)
        requires
            old(self).wf(),
        ensures
            final(self).wf(),
            final(self).spec_receiver() == old(self).spec_receiver(),
            final(self).spec_infohash() == old(self).spec_infohash(),
            final(self).spec_state() == (if is_terminal(old(self).spec_state()) {
                old(self).spec_state()
            } else {
                ConnState::Aborted(WireError::ConnectionError)
            }),
    {
        match self.state {
            ConnState::Complete => {},
            ConnState::Aborted(_) => {},
            _ => {
                self.state = ConnState::Aborted(WireError::ConnectionError);
            },
        }
    }

    /// The requests that cover piece `index`, in offset order.
    pub fn requests_for_piece(&self, index: u32) -> (r: Vec<BlockRequest>)
        requires
            self.wf(),
            self.spec_state() == ConnState::Exchanging,
            index < self.spec_receiver().spec_pieces().len(),
            self.spec_receiver().spec_piece_length() <= u32::MAX,
        ensures
            r@ == piece_blocks(index, self.spec_receiver().spec_piece_length()),
    {
        piece_requests(index, self.receiver.piece_length as u32)
    }

    /// The request duty: for every piece in index order, a `BLOCK_SIZE`
    /// block at every offset below the piece length, in offset order. Only an exchange in
    /// progress has requests to send.
    pub fn request_plan(&self) -> (r: Vec<BlockRequest>)
        requires
            self.wf(),
            self.spec_state() == ConnState::Exchanging,
            self.spec_receiver().spec_pieces().len() <= u32::MAX,
            self.spec_receiver().spec_piece_length() <= u32::MAX,
        ensures
            r@ == plan_of(
                self.spec_receiver().spec_piece_length(),
                self.spec_receiver().spec_pieces().len(),
            ),
    {
        let n = self.receiver.num_pieces();
        let mut out: Vec<BlockRequest> = Vec::new();
        let mut i: usize = 0;
        while i < n
            invariant
                self.wf(),
                self.spec_state() == ConnState::Exchanging,
                n == self.spec_receiver().spec_pieces().len(),
                n <= u32::MAX,
                self.spec_receiver().spec_piece_length() <= u32::MAX,
                i <= n,
                out@ == plan_of(self.spec_receiver().spec_piece_length(), i as nat),
            decreases n - i,
        {
            let mut blocks = self.requests_for_piece(i as u32);
            out.append(&mut blocks);
            i += 1;
        }
        out
    }

    /// Bytes received so far.
    pub fn received(&self) -> (r: u64)
        ensures
            r == self.spec_receiver().spec_received(),
    {
        self.receiver.received()
    }

    /// Number of pieces of the payload.
    pub fn num_pieces(&self) -> (r: usize)
        ensures
            r == self.spec_receiver().spec_pieces().len(),
    {
        self.receiver.num_pieces()
    }

    /// The peer's identifier from its handshake, once verified.
    pub fn remote_id(&self) -> (r: Option<Vec<u8>>)
        ensures
            opt_bytes(r) == self.spec_remote_id(),
    {
        match &self.remote_id {
            Some(id) => Some(id.clone()),
            None => None,
        }
    }

    /// The assembled payload: the piece buffers in index order.
    pub fn payload(&self) -> (r: Vec<u8>)
        requires
            self.wf(),
        ensures
            r@ == joined(self.spec_receiver().spec_pieces()),
            r@.len() == self.spec_receiver().spec_total(),
    {
        self.receiver.payload()
    }
}

} // verus!
