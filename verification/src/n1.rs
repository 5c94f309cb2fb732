//! The N1's background-image protocol: settings headers, the image metadata packet, and the
//! staged upload of a payload.
use vstd::prelude::*;

use crate::bytes::{push_all, push_zeros, views, zero_pad};
use crate::error::AjazzError;
use crate::kind::Kind;
use crate::reports::{
    image_data_reports, min_nat, params_for, spec_image_reports, split_chunks, WriteImageParameters,
};
use crate::request::{size_hi, size_lo};

verus! {

/// Largest payload that one settings header can announce.
pub open spec fn max_n1_chunk() -> nat {
    0xffff
}

/// The settings header of the N1 background protocol: `CRT` after the report id, the stage
/// byte (0x0f for the final stage, 0x05 otherwise) at offset 9, the big-endian 16-bit payload
/// size at offsets 10 and 11, the two mode bytes at 12 and 13, zero elsewhere.
pub open spec fn spec_n1_settings_head(kind: Kind, size: nat, byte_a: u8, byte_b: u8, final_stage: bool) -> Seq<u8> {
    let stage: u8 = if final_stage {
        0x0f
    } else {
        0x05
    };
    zero_pad(
        seq![0x00u8, 0x43, 0x52, 0x54, 0x00, 0x00, 0x00, 0x00, 0x00, stage, size_hi(size), size_lo(size), byte_a, byte_b],
        kind.spec_report_length(),
    )
}

/// Big-endian bytes of a 16-bit value.
pub open spec fn be16(v: u16) -> Seq<u8> {
    seq![(v / 0x100) as u8, (v % 0x100) as u8]
}

/// Big-endian bytes of a 32-bit value.
pub open spec fn be32(v: nat) -> Seq<u8> {
    seq![
        ((v / 0x1000000) % 0x100) as u8,
        ((v / 0x10000) % 0x100) as u8,
        ((v / 0x100) % 0x100) as u8,
        (v % 0x100) as u8,
    ]
}

/// Reads a big-endian 32-bit value back from four bytes.
pub open spec fn read_be32(b: Seq<u8>) -> nat {
    (((b[0] as nat * 0x100 + b[1] as nat) * 0x100 + b[2] as nat) * 0x100 + b[3] as nat) as nat
}

/// `CRT\0\0BGPIC`: announces a background picture.
pub open spec fn bgpic_tag() -> Seq<u8> {
    seq![0x43u8, 0x52, 0x54, 0x00, 0x00, 0x42, 0x47, 0x50, 0x49, 0x43]
}

/// The background metadata packet: the tag, the image size as a big-endian 32-bit value,
/// then position and size as big-endian 16-bit values, and the mode byte.
pub open spec fn spec_n1_background_metadata(size: nat, x: u16, y: u16, width: u16, height: u16, mode: u8) -> Seq<u8> {
    bgpic_tag() + be32(size) + be16(x) + be16(y) + be16(width) + be16(height) + seq![mode]
}

proof fn lemma_u16_bytes(v: u16)
    ensures
        (v >> 8u16) as u8 == (v / 0x100) as u8,
        v as u8 == (v % 0x100) as u8,
{
    assert((v >> 8u16) as u8 == (v / 0x100) as u8) by (bit_vector);
    assert(v as u8 == (v % 0x100) as u8) by (bit_vector);
}

proof fn lemma_u32_bytes(v: u32)
    ensures
        (v >> 24u32) as u8 == ((v / 0x1000000) % 0x100) as u8,
        (v >> 16u32) as u8 == ((v / 0x10000) % 0x100) as u8,
        (v >> 8u32) as u8 == ((v / 0x100) % 0x100) as u8,
        v as u8 == (v % 0x100) as u8,
{
    assert((v >> 24u32) as u8 == ((v / 0x1000000) % 0x100) as u8) by (bit_vector);
    assert((v >> 16u32) as u8 == ((v / 0x10000) % 0x100) as u8) by (bit_vector);
    assert((v >> 8u32) as u8 == ((v / 0x100) % 0x100) as u8) by (bit_vector);
    assert(v as u8 == (v % 0x100) as u8) by (bit_vector);
}

fn push_be16(buf: &mut Vec<u8>, v: u16)
    ensures
        final(buf)@ == old(buf)@ + be16(v),
{
    buf.push((v >> 8) as u8);
    buf.push(v as u8);
    proof {
        lemma_u16_bytes(v);
        assert(final(buf)@ =~= old(buf)@ + be16(v));
    }
}

/// The size field of an N1 settings header can carry at most 0xffff bytes.
pub fn n1_settings_pack_head(kind: Kind, size: usize, byte_a: u8, byte_b: u8, final_stage: bool) -> (r: Result<Vec<u8>, AjazzError>)
    ensures
        size > 0xffff ==> r == Err::<Vec<u8>, AjazzError>(AjazzError::UnsupportedOperation),
        size <= 0xffff ==> (r matches Ok(p) && p@ == spec_n1_settings_head(kind, size as nat, byte_a, byte_b, final_stage)),
{
    if size > 0xffff {
        return Err(AjazzError::UnsupportedOperation);
    }
    Ok(settings_head(kind, size, byte_a, byte_b, final_stage))
}

fn settings_head(kind: Kind, size: usize, byte_a: u8, byte_b: u8, final_stage: bool) -> (r: Vec<u8>)
    requires
        size <= 0xffff,
    ensures
        r@ == spec_n1_settings_head(kind, size as nat, byte_a, byte_b, final_stage),
{
    let stage: u8 = if final_stage {
        0x0f
    } else {
        0x05
    };
    let head: [u8; 14] = [
        0x00,
        0x43,
        0x52,
        0x54,
        0x00,
        0x00,
        0x00,
        0x00,
        0x00,
        stage,
        ((size >> 8) & 0xff) as u8,
        (size & 0xff) as u8,
        byte_a,
        byte_b,
    ];
    let mut packet: Vec<u8> = Vec::new();
    push_all(&mut packet, &head);
    let fill = WriteImageParameters::for_kind(kind).image_report_length - 14;
    push_zeros(&mut packet, fill);
    proof {
        assert(((size >> 8usize) & 0xffusize) as u8 == ((size / 256) % 256) as u8) by (bit_vector);
        assert((size & 0xffusize) as u8 == (size % 256) as u8) by (bit_vector);
        assert(head@ =~= seq![0x00u8, 0x43, 0x52, 0x54, 0x00, 0x00, 0x00, 0x00, 0x00, stage, size_hi(size as nat), size_lo(size as nat), byte_a, byte_b]);
    }
    packet
}

/// The metadata packet fails only for images whose size does not fit in 32 bits.
pub fn n1_background_metadata_packet(
    image_data: &[u8],
    x: u16,
    y: u16,
    width: u16,
    height: u16,
    mode: u8,
) -> (r: Result<Vec<u8>, AjazzError>)
    ensures
        image_data@.len() > u32::MAX ==> r == Err::<Vec<u8>, AjazzError>(AjazzError::UnsupportedOperation),
        image_data@.len() <= u32::MAX ==> (r matches Ok(p) && p@ == spec_n1_background_metadata(
            image_data@.len(),
            x,
            y,
            width,
            height,
            mode,
        )),
{
    if image_data.len() > 0xffff_ffff {
        return Err(AjazzError::UnsupportedOperation);
    }
    let size = image_data.len() as u32;
    let tag: [u8; 10] = [0x43, 0x52, 0x54, 0x00, 0x00, 0x42, 0x47, 0x50, 0x49, 0x43];
    let mut packet: Vec<u8> = Vec::new();
    push_all(&mut packet, &tag);
    packet.push((size >> 24) as u8);
    packet.push((size >> 16) as u8);
    packet.push((size >> 8) as u8);
    packet.push(size as u8);
    let ghost after_size = packet@;
    proof {
        lemma_u32_bytes(size);
        assert(tag@ =~= bgpic_tag());
        assert(after_size =~= bgpic_tag() + be32(image_data@.len()));
    }
    push_be16(&mut packet, x);
    push_be16(&mut packet, y);
    push_be16(&mut packet, width);
    push_be16(&mut packet, height);
    packet.push(mode);
    proof {
        assert(packet@ =~= spec_n1_background_metadata(image_data@.len(), x, y, width, height, mode));
    }
    Ok(packet)
}

/// The metadata packet is 23 bytes long and its size field reads back as the image size.
pub proof fn lemma_metadata_size_roundtrip(size: nat, x: u16, y: u16, width: u16, height: u16, mode: u8)
    requires
        size <= u32::MAX,
    ensures
        spec_n1_background_metadata(size, x, y, width, height, mode).len() == 23,
        read_be32(spec_n1_background_metadata(size, x, y, width, height, mode).subrange(10, 14)) == size,
{
    let p = spec_n1_background_metadata(size, x, y, width, height, mode);
    assert(p.subrange(10, 14) =~= be32(size));
    let v = size as int;
    assert((((((v / 0x1000000) % 0x100) * 0x100 + (v / 0x10000) % 0x100) * 0x100 + (v / 0x100) % 0x100)
        * 0x100 + v % 0x100) == v) by (nonlinear_arith)
        requires
            0 <= v <= 0xffff_ffff,
    ;
}

/// One stage of a background upload: a settings header, then the reports carrying a chunk.
#[derive(Debug)]
pub struct PayloadStage {
    /// The settings header that announces the chunk.
    pub header: Vec<u8>,
    /// The reports that carry the chunk.
    pub reports: Vec<Vec<u8>>,
}

impl PayloadStage {
    /// The header and report contents of the stage.
    pub open spec fn view_parts(&self) -> (Seq<u8>, Seq<Seq<u8>>) {
        (self.header@, views(self.reports@))
    }
}

/// The views of a sequence of stages.
pub open spec fn stage_views(stages: Seq<PayloadStage>) -> Seq<(Seq<u8>, Seq<Seq<u8>>)> {
    stages.map_values(|s: PayloadStage| s.view_parts())
}

/// The stages for a non-empty payload: one per chunk of at most 0xffff bytes, each a header
/// announcing the chunk's length and the chunk framed into reports.
pub open spec fn spec_chunk_stages(kind: Kind, data: Seq<u8>, byte_a: u8, byte_b: u8) -> Seq<(Seq<u8>, Seq<Seq<u8>>)>
    decreases data.len(),
{
    if data.len() == 0 {
        Seq::empty()
    } else {
        let n = min_nat(data.len(), max_n1_chunk());
        let chunk = data.take(n as int);
        seq![(
            spec_n1_settings_head(kind, n, byte_a, byte_b, false),
            spec_image_reports(chunk, params_for(kind)),
        )] + spec_chunk_stages(kind, data.skip(n as int), byte_a, byte_b)
    }
}

/// The stages that upload `data`: a lone header announcing zero bytes for an empty payload,
/// the chunk stages otherwise.
pub open spec fn spec_payload_stages(kind: Kind, data: Seq<u8>, byte_a: u8, byte_b: u8) -> Seq<(Seq<u8>, Seq<Seq<u8>>)> {
    if data.len() == 0 {
        seq![(spec_n1_settings_head(kind, 0, byte_a, byte_b, false), Seq::<Seq<u8>>::empty())]
    } else {
        spec_chunk_stages(kind, data, byte_a, byte_b)
    }
}

proof fn lemma_stage_views_push(v: Seq<PayloadStage>, s: PayloadStage)
    ensures
        stage_views(v.push(s)) == stage_views(v).push(s.view_parts()),
{
    assert(stage_views(v.push(s)) =~= stage_views(v).push(s.view_parts()));
}

/// Splits `payload` into upload stages for the N1 background protocol.
pub fn n1_background_payload(kind: Kind, payload: &[u8], byte_a: u8, byte_b: u8) -> (r: Vec<PayloadStage>)
    ensures
        stage_views(r@) == spec_payload_stages(kind, payload@, byte_a, byte_b),
{
    let params = WriteImageParameters::for_kind(kind);
    let mut stages: Vec<PayloadStage> = Vec::new();
    if payload.len() == 0 {
        let header = settings_head(kind, 0, byte_a, byte_b, false);
        let stage = PayloadStage { header, reports: Vec::new() };
        proof {
            lemma_stage_views_push(stages@, stage);
            assert(views(stage.reports@) =~= Seq::<Seq<u8>>::empty());
        }
        stages.push(stage);
        proof {
            assert(stage_views(stages@) =~= spec_payload_stages(kind, payload@, byte_a, byte_b));
        }
        return stages;
    }
    let total = payload.len();
    let mut offset: usize = 0;
    proof {
        assert(payload@.skip(0) =~= payload@);
        assert(stage_views(stages@) =~= Seq::<(Seq<u8>, Seq<Seq<u8>>)>::empty());
    }
    while offset < total
        invariant
            offset <= total,
            total == payload@.len(),
            params == params_for(kind),
            params.wf(),
            stage_views(stages@) + spec_chunk_stages(kind, payload@.skip(offset as int), byte_a, byte_b)
                == spec_chunk_stages(kind, payload@, byte_a, byte_b),
        decreases total - offset,
    {
        let remaining = total - offset;
        let this_length: usize = if remaining < 0xffff {
            remaining
        } else {
            0xffff
        };
        let end = offset + this_length;
        let mut chunk: Vec<u8> = Vec::new();
        crate::bytes::push_range(&mut chunk, payload, offset, end);
        let header = settings_head(kind, this_length, byte_a, byte_b, false);
        let reports = image_data_reports(chunk.as_slice(), params);
        let stage = PayloadStage { header, reports };
        proof {
            let s = payload@.skip(offset as int);
            assert(chunk@ =~= s.take(this_length as int));
            assert(s.skip(this_length as int) =~= payload@.skip(end as int));
            lemma_stage_views_push(stages@, stage);
            assert(spec_chunk_stages(kind, s, byte_a, byte_b) == seq![stage.view_parts()]
                + spec_chunk_stages(kind, payload@.skip(end as int), byte_a, byte_b));
            assert(stage_views(stages@.push(stage)) + spec_chunk_stages(kind, payload@.skip(end as int), byte_a, byte_b)
                =~= stage_views(stages@) + spec_chunk_stages(kind, s, byte_a, byte_b));
        }
        stages.push(stage);
        offset = end;
    }
    proof {
        assert(payload@.skip(total as int) =~= Seq::<u8>::empty());
        assert(stage_views(stages@) + Seq::<(Seq<u8>, Seq<Seq<u8>>)>::empty() =~= stage_views(stages@));
    }
    stages
}

/// The chunks announced by the stages of a non-empty payload are the payload's chunks of
/// 0xffff bytes: each header announces its chunk's length and its reports carry that chunk.
pub proof fn lemma_chunk_stages_cover(kind: Kind, data: Seq<u8>, byte_a: u8, byte_b: u8)
    ensures
        spec_chunk_stages(kind, data, byte_a, byte_b).len() == split_chunks(data, max_n1_chunk()).len(),
        forall|i: int|
            0 <= i < split_chunks(data, max_n1_chunk()).len() ==> #[trigger] spec_chunk_stages(
                kind,
                data,
                byte_a,
                byte_b,
            )[i] == (
                spec_n1_settings_head(kind, split_chunks(data, max_n1_chunk())[i].len(), byte_a, byte_b, false),
                spec_image_reports(split_chunks(data, max_n1_chunk())[i], params_for(kind)),
            ),
    decreases data.len(),
{
    if data.len() > 0 {
        let n = min_nat(data.len(), max_n1_chunk());
        lemma_chunk_stages_cover(kind, data.skip(n as int), byte_a, byte_b);
        let st = spec_chunk_stages(kind, data, byte_a, byte_b);
        let ch = split_chunks(data, max_n1_chunk());
        let st_tail = spec_chunk_stages(kind, data.skip(n as int), byte_a, byte_b);
        let ch_tail = split_chunks(data.skip(n as int), max_n1_chunk());
        assert(ch == seq![data.take(n as int)] + ch_tail);
        assert forall|i: int| 0 <= i < ch.len() implies #[trigger] st[i] == (
            spec_n1_settings_head(kind, ch[i].len(), byte_a, byte_b, false),
            spec_image_reports(ch[i], params_for(kind)),
        ) by {
            if i > 0 {
                assert(st[i] == st_tail[i - 1]);
                assert(ch[i] == ch_tail[i - 1]);
            }
        }
    }
}

/// The two uploads that replace the N1's background image: first the metadata packet, then the
/// image itself. Fails only for images whose size does not fit in 32 bits.
pub fn n1_secondary_screen_stages(kind: Kind, image_data: &[u8], width: u16, height: u16) -> (r: Result<(Vec<PayloadStage>, Vec<PayloadStage>), AjazzError>)
    ensures
        image_data@.len() > u32::MAX ==> (r matches Err(e) && e == AjazzError::UnsupportedOperation),
        image_data@.len() <= u32::MAX ==> (r matches Ok((meta, img)) && {
            &&& stage_views(meta@) == spec_payload_stages(
                kind,
                spec_n1_background_metadata(image_data@.len(), 0, 0, width, height, 0x01),
                0x00,
                0x00,
            )
            &&& stage_views(img@) == spec_payload_stages(kind, image_data@, 0x01, 0x00)
        }),
{
    let metadata = match n1_background_metadata_packet(image_data, 0, 0, width, height, 0x01) {
        Ok(m) => m,
        Err(e) => return Err(e),
    };
    let meta = n1_background_payload(kind, metadata.as_slice(), 0x00, 0x00);
    let img = n1_background_payload(kind, image_data, 0x01, 0x00);
    Ok((meta, img))
}

/// The settings header is one report long, starts with `CRT` after the report id, marks the
/// final stage with 0x0f and others with 0x05 at offset 9, carries the announced size as a
/// big-endian 16-bit value at offsets 10 and 11 and the two mode bytes at 12 and 13, and is zero
/// everywhere else.
pub proof fn lemma_settings_head_layout(kind: Kind, size: nat, byte_a: u8, byte_b: u8, final_stage: bool)
    requires
        size <= 0xffff,
    ensures
        spec_n1_settings_head(kind, size, byte_a, byte_b, final_stage).len() == kind.spec_report_length(),
        spec_n1_settings_head(kind, size, byte_a, byte_b, final_stage).subrange(1, 4) == seq![0x43u8, 0x52, 0x54],
        spec_n1_settings_head(kind, size, byte_a, byte_b, final_stage)[9] == (if final_stage {
            0x0fu8
        } else {
            0x05u8
        }),
        spec_n1_settings_head(kind, size, byte_a, byte_b, final_stage)[10] as nat * 256 + spec_n1_settings_head(
            kind,
            size,
            byte_a,
            byte_b,
            final_stage,
        )[11] as nat == size,
        spec_n1_settings_head(kind, size, byte_a, byte_b, final_stage)[12] == byte_a,
        spec_n1_settings_head(kind, size, byte_a, byte_b, final_stage)[13] == byte_b,
        forall|i: int|
            0 <= i < kind.spec_report_length() && (i == 0 || 4 <= i < 9 || i >= 14) ==> #[trigger] spec_n1_settings_head(
                kind,
                size,
                byte_a,
                byte_b,
                final_stage,
            )[i] == 0u8,
{
    let p = spec_n1_settings_head(kind, size, byte_a, byte_b, final_stage);
    assert(p.subrange(1, 4) =~= seq![0x43u8, 0x52, 0x54]);
    crate::request::lemma_size_bytes_roundtrip(size);
}

/// Every field of the metadata packet reads back as what it was built from: the image size,
/// the position, the size on screen and the mode.
pub proof fn lemma_metadata_fields(size: nat, x: u16, y: u16, width: u16, height: u16, mode: u8)
    requires
        size <= u32::MAX,
    ensures
        spec_n1_background_metadata(size, x, y, width, height, mode).subrange(0, 10) == bgpic_tag(),
        read_be32(spec_n1_background_metadata(size, x, y, width, height, mode).subrange(10, 14)) == size,
        spec_n1_background_metadata(size, x, y, width, height, mode)[14] as nat * 256
            + spec_n1_background_metadata(size, x, y, width, height, mode)[15] as nat == x,
        spec_n1_background_metadata(size, x, y, width, height, mode)[16] as nat * 256
            + spec_n1_background_metadata(size, x, y, width, height, mode)[17] as nat == y,
        spec_n1_background_metadata(size, x, y, width, height, mode)[18] as nat * 256
            + spec_n1_background_metadata(size, x, y, width, height, mode)[19] as nat == width,
        spec_n1_background_metadata(size, x, y, width, height, mode)[20] as nat * 256
            + spec_n1_background_metadata(size, x, y, width, height, mode)[21] as nat == height,
        spec_n1_background_metadata(size, x, y, width, height, mode)[22] == mode,
{
    lemma_metadata_size_roundtrip(size, x, y, width, height, mode);
    let p = spec_n1_background_metadata(size, x, y, width, height, mode);
    assert(p.subrange(0, 10) =~= bgpic_tag());
    assert(p[14] == (x / 0x100) as u8 && p[15] == (x % 0x100) as u8);
    assert(p[16] == (y / 0x100) as u8 && p[17] == (y % 0x100) as u8);
    assert(p[18] == (width / 0x100) as u8 && p[19] == (width % 0x100) as u8);
    assert(p[20] == (height / 0x100) as u8 && p[21] == (height % 0x100) as u8);
}

} // verus!
