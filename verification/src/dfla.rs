//! `dfLa`: the FLAC decoder configuration, a list of FLAC metadata blocks.
use vstd::prelude::*;

use crate::bytes::{be24, get24, lemma_get24, push_slice, push_u24, push_u8, read_u24};
use crate::codec::{full_header_bytes, push_full_header, BoxCodec};
use crate::codec::{box_encodable, box_of, decode_box, encode_box_to_vec, parse_box};
use crate::error::{Error, ErrorKind};

verus! {

/// A FLAC metadata block (`METADATA_BLOCK`).
#[derive(Debug, Clone, PartialEq, Eq, Hash)]
pub struct FlacMetadataBlock {
    /// Whether this is the last metadata block (1 bit)
    pub last_metadata_block_flag: u8,
    /// Block type (7 bits): 0 STREAMINFO, 1 PADDING, 2 APPLICATION,
    /// 3 SEEKTABLE, 4 VORBIS_COMMENT, 5 CUESHEET, 6 PICTURE
    pub block_type: u8,
    /// Block data
    pub block_data: Vec<u8>,
}

/// The value of a [`FlacMetadataBlock`].
pub struct FlacBlockV {
    pub last_metadata_block_flag: u8,
    pub block_type: u8,
    pub block_data: Seq<u8>,
}

impl View for FlacMetadataBlock {
    type V = FlacBlockV;

    open spec fn view(&self) -> FlacBlockV {
        FlacBlockV {
            last_metadata_block_flag: self.last_metadata_block_flag,
            block_type: self.block_type,
            block_data: self.block_data@,
        }
    }
}

impl FlacMetadataBlock {
    /// Block type STREAMINFO
    pub const BLOCK_TYPE_STREAMINFO: u8 = 0;

    /// Block type PADDING
    pub const BLOCK_TYPE_PADDING: u8 = 1;

    /// Block type APPLICATION
    pub const BLOCK_TYPE_APPLICATION: u8 = 2;

    /// Block type SEEKTABLE
    pub const BLOCK_TYPE_SEEKTABLE: u8 = 3;

    /// Block type VORBIS_COMMENT
    pub const BLOCK_TYPE_VORBIS_COMMENT: u8 = 4;

    /// Block type CUESHEET
    pub const BLOCK_TYPE_CUESHEET: u8 = 5;

    /// Block type PICTURE
    pub const BLOCK_TYPE_PICTURE: u8 = 6;
}

/// Views of a vector of blocks.
pub open spec fn blocks_view(v: Seq<FlacMetadataBlock>) -> Seq<FlacBlockV> {
    v.map_values(|b: FlacMetadataBlock| b@)
}

/// A block can be written: flag and type in range, data of at most 2^24 - 1 bytes.
pub open spec fn flac_block_encodable(b: FlacBlockV) -> bool {
    b.last_metadata_block_flag < 2 && b.block_type < 128 && b.block_data.len() <= 0xFF_FFFF
}

/// Flag and type, 24-bit data length, data.
pub open spec fn flac_block_bytes(b: FlacBlockV) -> Seq<u8> {
    seq![(b.last_metadata_block_flag * 128 + b.block_type) as u8] + be24(
        b.block_data.len() as u32,
    ) + b.block_data
}

/// The block at the start of `s` and the number of bytes it takes.
pub open spec fn parse_flac_block(s: Seq<u8>) -> Option<(FlacBlockV, int)> {
    if s.len() < 4 || 4 + get24(s, 1) > s.len() {
        None
    } else {
        let n = get24(s, 1) as int;
        Some(
            (
                FlacBlockV {
                    last_metadata_block_flag: s[0] / 128,
                    block_type: s[0] % 128,
                    block_data: s.subrange(4, 4 + n),
                },
                4 + n,
            ),
        )
    }
}

/// The blocks one after the other.
pub open spec fn flac_blocks_bytes(l: Seq<FlacBlockV>) -> Seq<u8>
    decreases l.len(),
{
    if l.len() == 0 {
        Seq::empty()
    } else {
        flac_block_bytes(l[0]) + flac_blocks_bytes(l.drop_first())
    }
}

/// Blocks read until the data ends or a block carries the last-block flag;
/// nothing may follow a block with that flag.
pub open spec fn parse_flac_blocks(s: Seq<u8>) -> Option<Seq<FlacBlockV>>
    decreases s.len(),
{
    if s.len() == 0 {
        Some(Seq::empty())
    } else {
        match parse_flac_block(s) {
            None => None,
            Some((b, n)) => {
                if b.last_metadata_block_flag == 1 {
                    if n == s.len() {
                        Some(seq![b])
                    } else {
                        None
                    }
                } else {
                    match parse_flac_blocks(s.skip(n)) {
                        None => None,
                        Some(l) => Some(seq![b] + l),
                    }
                }
            },
        }
    }
}

/// `dfLa`: FLAC specific box.
#[derive(Debug, Clone, PartialEq, Eq, Hash)]
pub struct DflaBox {
    /// Metadata blocks; the first is STREAMINFO
    pub metadata_blocks: Vec<FlacMetadataBlock>,
}

/// The value of a [`DflaBox`].
pub struct DflaBoxV {
    pub metadata_blocks: Seq<FlacBlockV>,
}

impl View for DflaBox {
    type V = DflaBoxV;

    open spec fn view(&self) -> DflaBoxV {
        DflaBoxV { metadata_blocks: blocks_view(self.metadata_blocks@) }
    }
}

impl DflaBox {
    /// Box type `dfLa`
    pub const TYPE: u32 = 0x64664C61;
}

/// `dfLa` payload: full box header (version 0, flags 0), then the blocks.
pub open spec fn dfla_bytes(v: DflaBoxV) -> Seq<u8> {
    full_header_bytes(0, 0) + flac_blocks_bytes(v.metadata_blocks)
}

/// `dfLa` payload decoding: version 0, at least one block, the first of type
/// STREAMINFO.
pub open spec fn parse_dfla(p: Seq<u8>) -> Option<DflaBoxV> {
    if p.len() < 4 || p[0] != 0 {
        None
    } else {
        match parse_flac_blocks(p.skip(4)) {
            Some(l) => if l.len() > 0 && l[0].block_type == 0 {
                Some(DflaBoxV { metadata_blocks: l })
            } else {
                None
            },
            None => None,
        }
    }
}

/// Every block can be written.
pub open spec fn flac_blocks_encodable(l: Seq<FlacBlockV>) -> bool {
    forall|i: int| 0 <= i < l.len() ==> #[trigger] flac_block_encodable(l[i])
}

/// The blocks read back: only the last one may carry the last-block flag.
pub open spec fn flac_blocks_valid(l: Seq<FlacBlockV>) -> bool {
    &&& flac_blocks_encodable(l)
    &&& forall|i: int| 0 <= i < l.len() - 1 ==> #[trigger] l[i].last_metadata_block_flag == 0
}

pub proof fn lemma_flac_blocks_push(l: Seq<FlacBlockV>, b: FlacBlockV)
    ensures
        flac_blocks_bytes(l.push(b)) == flac_blocks_bytes(l) + flac_block_bytes(b),
    decreases l.len(),
{
    if l.len() == 0 {
        assert(l.push(b).drop_first() =~= Seq::<FlacBlockV>::empty());
        assert(flac_blocks_bytes(Seq::<FlacBlockV>::empty()) =~= Seq::<u8>::empty());
        assert(l.push(b)[0] == b);
        assert(flac_blocks_bytes(l.push(b)) =~= flac_block_bytes(b) + Seq::<u8>::empty());
        assert(flac_blocks_bytes(l) =~= Seq::<u8>::empty());
    } else {
        lemma_flac_blocks_push(l.drop_first(), b);
        assert(l.push(b).drop_first() =~= l.drop_first().push(b));
        assert(flac_blocks_bytes(l.push(b)) =~= flac_blocks_bytes(l) + flac_block_bytes(b));
    }
}

proof fn lemma_flac_block_roundtrip(b: FlacBlockV, rest: Seq<u8>)
    requires
        flac_block_encodable(b),
    ensures
        parse_flac_block(flac_block_bytes(b) + rest) == Some(
            (b, flac_block_bytes(b).len() as int),
        ),
        (flac_block_bytes(b) + rest).skip(flac_block_bytes(b).len() as int) == rest,
{
    let s = flac_block_bytes(b) + rest;
    let n = b.block_data.len();
    assert(s.subrange(1, 4) =~= be24(n as u32));
    lemma_get24(s, 1, n as u32);
    assert(s.subrange(4, 4 + n as int) =~= b.block_data);
    assert(s.skip(4 + n as int) =~= rest);
    let h = (b.last_metadata_block_flag * 128 + b.block_type) as u8;
    assert(h / 128 == b.last_metadata_block_flag);
    assert(h % 128 == b.block_type);
}

/// Valid blocks read back from their bytes.
pub proof fn lemma_flac_blocks_roundtrip(l: Seq<FlacBlockV>)
    requires
        flac_blocks_valid(l),
    ensures
        parse_flac_blocks(flac_blocks_bytes(l)) == Some(l),
    decreases l.len(),
{
    if l.len() == 0 {
        assert(flac_blocks_bytes(l) =~= Seq::<u8>::empty());
        assert(l =~= Seq::<FlacBlockV>::empty());
    } else {
        let b = l[0];
        let t = l.drop_first();
        let tb = flac_blocks_bytes(t);
        assert(flac_block_encodable(b));
        lemma_flac_block_roundtrip(b, tb);
        let s = flac_blocks_bytes(l);
        assert(s == flac_block_bytes(b) + tb);
        if b.last_metadata_block_flag == 1 {
            assert(l.len() == 1);
            assert(t.len() == 0);
            assert(tb =~= Seq::<u8>::empty());
            assert(seq![b] =~= l);
        } else {
            assert(flac_blocks_valid(t)) by {
                assert forall|i: int| 0 <= i < t.len() implies #[trigger] flac_block_encodable(
                    t[i],
                ) by {
                    assert(t[i] == l[i + 1]);
                    assert(flac_block_encodable(l[i + 1]));
                }
                assert forall|i: int| 0 <= i < t.len() - 1 implies #[trigger] t[i].last_metadata_block_flag == 0 by {
                    assert(t[i] == l[i + 1]);
                    assert(l[i + 1].last_metadata_block_flag == 0);
                }
            }
            lemma_flac_blocks_roundtrip(t);
            assert(seq![b] + t =~= l);
        }
    }
}

/// Appends the blocks.
pub fn encode_flac_blocks(blocks: &Vec<FlacMetadataBlock>, out: &mut Vec<u8>) -> (r: Result<
    (),
    Error,
>)
    ensures
        r matches Err(e) ==> e.kind == ErrorKind::InvalidInput,
        r is Ok <==> flac_blocks_encodable(blocks_view(blocks@)),
        r is Ok ==> final(out)@ == old(out)@ + flac_blocks_bytes(blocks_view(blocks@)),
{
    let ghost v = blocks_view(blocks@);
    let mut i: usize = 0;
    while i < blocks.len()
        invariant
            i <= blocks@.len(),
            v == blocks_view(blocks@),
            flac_blocks_encodable(v.take(i as int)),
            out@ == old(out)@ + flac_blocks_bytes(v.take(i as int)),
        decreases blocks@.len() - i,
    {
        let b = &blocks[i];
        assert(b@ == v[i as int]);
        if b.last_metadata_block_flag >= 2 || b.block_type >= 128 {
            assert(!flac_block_encodable(v[i as int]));
            return Err(Error::invalid_input("FLAC metadata block header out of range"));
        }
        if b.block_data.len() > 0xFF_FFFF {
            assert(!flac_block_encodable(v[i as int]));
            return Err(
                Error::invalid_input("FLAC metadata block data is too large (max 16777215 bytes)"),
            );
        }
        let ghost before = out@;
        push_u8(out, b.last_metadata_block_flag * 128 + b.block_type);
        push_u24(out, b.block_data.len() as u32);
        push_slice(out, b.block_data.as_slice());
        proof {
            assert(out@ =~= before + flac_block_bytes(b@));
            lemma_flac_blocks_push(v.take(i as int), b@);
            assert(v.take(i as int).push(b@) =~= v.take(i + 1));
            assert forall|j: int| 0 <= j < i + 1 implies #[trigger] flac_block_encodable(
                v.take(i + 1)[j],
            ) by {
                if j < i {
                    assert(v.take(i + 1)[j] == v.take(i as int)[j]);
                }
            }
        }
        i = i + 1;
    }
    proof {
        assert(v.take(i as int) =~= v);
    }
    Ok(())
}

/// Reads blocks from `s` starting at `start` as [`parse_flac_blocks`] does.
pub fn decode_flac_blocks(s: &[u8], start: usize) -> (r: Result<Vec<FlacMetadataBlock>, Error>)
    requires
        start <= s@.len(),
    ensures
        r matches Err(e) ==> e.kind == ErrorKind::InvalidData,
        r is Ok <==> parse_flac_blocks(s@.skip(start as int)) is Some,
        r matches Ok(l) ==> parse_flac_blocks(s@.skip(start as int)) == Some(blocks_view(l@)),
{
    let mut acc: Vec<FlacMetadataBlock> = Vec::new();
    let mut off = start;
    while off < s.len()
        invariant
            start <= off <= s@.len(),
            parse_flac_blocks(s@.skip(start as int)) == match parse_flac_blocks(
                s@.skip(off as int),
            ) {
                Some(l) => Some(blocks_view(acc@) + l),
                None => None,
            },
        decreases s@.len() - off,
    {
        let ghost t = s@.skip(off as int);
        if s.len() - off < 4 {
            return Err(Error::invalid_data("FLAC metadata block is truncated"));
        }
        let h = s[off];
        let n = match read_u24(s, off + 1) {
            Ok(x) => x as usize,
            Err(e) => {
                return Err(e);
            },
        };
        assert(get24(t, 1) == get24(s@, off + 1));
        if n > s.len() - off - 4 {
            return Err(Error::invalid_data("FLAC metadata block exceeds payload boundary"));
        }
        let data = vstd::slice::slice_to_vec(vstd::slice::slice_subrange(s, off + 4, off + 4 + n));
        let b = FlacMetadataBlock { last_metadata_block_flag: h / 128, block_type: h % 128, block_data: data };
        proof {
            assert(t.subrange(4, 4 + n as int) =~= data@);
            assert(t.skip(4 + n as int) =~= s@.skip(off + 4 + n));
            assert(blocks_view(acc@.push(b)) =~= blocks_view(acc@) + seq![b@]);
        }
        let end = off + 4 + n;
        if h / 128 == 1 {
            if end < s.len() {
                return Err(Error::invalid_data("Unexpected data after last metadata block"));
            }
            acc.push(b);
            proof {
                assert(blocks_view(acc@) =~= blocks_view(acc@).take(acc@.len() - 1) + seq![b@]);
            }
            return Ok(acc);
        }
        proof {
            match parse_flac_blocks(s@.skip(end as int)) {
                Some(l) => {
                    assert(blocks_view(acc@) + (seq![b@] + l) =~= blocks_view(acc@.push(b)) + l);
                },
                None => {},
            }
        }
        acc.push(b);
        off = end;
    }
    proof {
        assert(s@.skip(off as int) =~= Seq::<u8>::empty());
        assert(blocks_view(acc@) + Seq::<FlacBlockV>::empty() =~= blocks_view(acc@));
    }
    Ok(acc)
}

impl BoxCodec for DflaBox {
    open spec fn decode_error_kind(k: ErrorKind) -> bool {
        k == ErrorKind::InvalidData
    }

    open spec fn spec_box_type() -> u32 {
        0x64664C61
    }

    open spec fn encodable(v: DflaBoxV) -> bool {
        flac_blocks_encodable(v.metadata_blocks)
    }

    /// At least one block, the first of type STREAMINFO, the last-block flag on
    /// no block but the last.
    open spec fn valid(v: DflaBoxV) -> bool {
        &&& flac_blocks_valid(v.metadata_blocks)
        &&& v.metadata_blocks.len() > 0
        &&& v.metadata_blocks[0].block_type == 0
    }

    open spec fn payload_bytes(v: DflaBoxV) -> Seq<u8> {
        dfla_bytes(v)
    }

    open spec fn parse_payload(p: Seq<u8>) -> Option<DflaBoxV> {
        parse_dfla(p)
    }

    proof fn lemma_payload_roundtrip(v: DflaBoxV) {
        let p = dfla_bytes(v);
        assert(p.skip(4) =~= flac_blocks_bytes(v.metadata_blocks));
        lemma_flac_blocks_roundtrip(v.metadata_blocks);
    }

    fn box_type_code() -> (r: u32) {
        Self::TYPE
    }

    fn encode_payload(&self, out: &mut Vec<u8>) -> (r: Result<(), Error>) {
        let ghost start = out@;
        let mut body: Vec<u8> = Vec::new();
        match encode_flac_blocks(&self.metadata_blocks, &mut body) {
            Ok(()) => {},
            Err(e) => {
                return Err(e);
            },
        }
        push_full_header(out, 0, 0);
        push_slice(out, body.as_slice());
        assert(out@ =~= start + dfla_bytes(self@));
        Ok(())
    }

    fn decode_payload(p: &[u8]) -> (r: Result<Self, Error>) {
        if p.len() < 4 {
            return Err(Error::invalid_data("dfLa box is truncated"));
        }
        if p[0] != 0 {
            return Err(Error::invalid_data("Unsupported dfLa version"));
        }
        let blocks = match decode_flac_blocks(p, 4) {
            Ok(l) => l,
            Err(e) => {
                return Err(e);
            },
        };
        if blocks.len() == 0 {
            return Err(
                Error::invalid_data("dfLa box must contain at least one metadata block (STREAMINFO)"),
            );
        }
        if blocks[0].block_type != 0 {
            return Err(
                Error::invalid_data("First metadata block in dfLa must be STREAMINFO (block_type=0)"),
            );
        }
        Ok(DflaBox { metadata_blocks: blocks })
    }
}

impl DflaBox {
    /// The bytes of the box. Fails when it cannot be encoded.
    pub fn encode_to_vec(&self) -> (r: Result<Vec<u8>, Error>)
        ensures
            r matches Err(e) ==> e.kind == ErrorKind::InvalidInput,
            r is Ok <==> box_encodable::<DflaBox>(self@),
            r matches Ok(v) ==> v@ == box_of::<DflaBox>(self@),
    {
        encode_box_to_vec(self)
    }

    /// Decodes the box at the start of `buf`; returns it and its size.
    pub fn decode(buf: &[u8]) -> (r: Result<(DflaBox, usize), Error>)
        ensures
            r matches Err(e) ==> e.kind == ErrorKind::InvalidData,
            r is Ok <==> parse_box::<DflaBox>(buf@) is Some,
            r matches Ok((v, n)) ==> parse_box::<DflaBox>(buf@) == Some((v@, n as int)),
    {
        decode_box(buf)
    }
}

} // verus!
