//! Splitting image data into output reports.
use vstd::prelude::*;

use crate::bytes::{lemma_views_push, push_range, push_zeros, views, zero_pad};
use crate::kind::Kind;

verus! {

/// How image data is framed into output reports.
#[derive(Clone, Copy, Debug, PartialEq, Eq)]
pub struct WriteImageParameters {
    /// Length of one written report, report id included.
    pub image_report_length: usize,
    /// Number of image bytes carried by one report.
    pub image_report_payload_length: usize,
}

/// The report framing of `kind`.
pub open spec fn params_for(kind: Kind) -> WriteImageParameters {
    WriteImageParameters {
        image_report_length: kind.spec_report_length() as usize,
        image_report_payload_length: kind.spec_packet_length() as usize,
    }
}

impl WriteImageParameters {
    /// Parameters that can frame data: a positive payload that fits after the report id.
    pub open spec fn wf(self) -> bool {
        &&& 0 < self.image_report_payload_length
        &&& self.image_report_payload_length < self.image_report_length
    }

    /// A report of `kind` carries one packet payload after the report id.
    pub fn for_kind(kind: Kind) -> (r: WriteImageParameters)
        ensures
            r == params_for(kind),
            r.image_report_length == kind.spec_report_length(),
            r.image_report_payload_length == kind.spec_packet_length(),
            r.wf(),
    {
        let payload = kind.packet_length();
        WriteImageParameters { image_report_length: payload + 1, image_report_payload_length: payload }
    }
}

/// The smaller of two lengths.
pub open spec fn min_nat(a: nat, b: nat) -> nat {
    if a < b {
        a
    } else {
        b
    }
}

/// `data` cut into consecutive pieces of `size` bytes, the last one possibly shorter.
pub open spec fn split_chunks(data: Seq<u8>, size: nat) -> Seq<Seq<u8>>
    decreases data.len(),
{
    if data.len() == 0 || size == 0 {
        Seq::empty()
    } else {
        let n = min_nat(data.len(), size);
        seq![data.take(n as int)] + split_chunks(data.skip(n as int), size)
    }
}

/// One report: report id 0, the chunk, then zero bytes up to the report length.
pub open spec fn frame_report(chunk: Seq<u8>, report_length: nat) -> Seq<u8> {
    zero_pad(seq![0u8] + chunk, report_length)
}

/// The reports that carry `data`, one per chunk of `image_report_payload_length` bytes.
pub open spec fn spec_image_reports(data: Seq<u8>, p: WriteImageParameters) -> Seq<Seq<u8>>
    decreases data.len(),
{
    if data.len() == 0 || p.image_report_payload_length == 0 {
        Seq::empty()
    } else {
        let n = min_nat(data.len(), p.image_report_payload_length as nat);
        seq![frame_report(data.take(n as int), p.image_report_length as nat)] + spec_image_reports(
            data.skip(n as int),
            p,
        )
    }
}

/// Number of pieces of `size` bytes needed to hold `len` bytes.
pub open spec fn ceil_div(len: nat, size: nat) -> nat {
    if size == 0 {
        0
    } else {
        ((len + size - 1) / (size as int)) as nat
    }
}

/// Frames `image_data` into reports of `parameters.image_report_length` bytes, each carrying
/// the next `parameters.image_report_payload_length` bytes of the image after a zero report id.
pub fn image_data_reports(image_data: &[u8], parameters: WriteImageParameters) -> (r: Vec<Vec<u8>>)
    requires
        parameters.wf() || image_data@.len() == 0,
    ensures
        views(r@) == spec_image_reports(image_data@, parameters),
{
    let report_length = parameters.image_report_length;
    let payload_length = parameters.image_report_payload_length;
    let total = image_data.len();
    let mut reports: Vec<Vec<u8>> = Vec::new();
    let mut offset: usize = 0;
    proof {
        assert(image_data@.skip(0) =~= image_data@);
        assert(views(reports@) =~= Seq::<Seq<u8>>::empty());
    }
    while offset < total
        invariant
            offset <= total,
            total == image_data@.len(),
            report_length == parameters.image_report_length,
            payload_length == parameters.image_report_payload_length,
            parameters.wf() || total == 0,
            views(reports@) + spec_image_reports(image_data@.skip(offset as int), parameters)
                == spec_image_reports(image_data@, parameters),
        decreases total - offset,
    {
        let remaining = total - offset;
        let this_length = if remaining < payload_length {
            remaining
        } else {
            payload_length
        };
        let mut buf: Vec<u8> = Vec::new();
        buf.push(0u8);
        push_range(&mut buf, image_data, offset, offset + this_length);
        let fill = report_length - buf.len();
        push_zeros(&mut buf, fill);
        proof {
            let s = image_data@.skip(offset as int);
            let chunk = image_data@.subrange(offset as int, offset + this_length);
            assert(s.take(this_length as int) =~= chunk);
            assert(s.skip(this_length as int) =~= image_data@.skip(offset + this_length));
            assert(seq![0u8] + chunk =~= Seq::<u8>::empty().push(0u8) + chunk);
            assert(buf@ =~= frame_report(chunk, report_length as nat));
            lemma_views_push(reports@, buf);
            assert(spec_image_reports(s, parameters) == seq![frame_report(chunk, report_length as nat)]
                + spec_image_reports(image_data@.skip(offset + this_length), parameters));
            assert(views(reports@.push(buf)) + spec_image_reports(
                image_data@.skip(offset + this_length),
                parameters,
            ) =~= views(reports@) + spec_image_reports(s, parameters));
        }
        reports.push(buf);
        offset = offset + this_length;
    }
    proof {
        assert(image_data@.skip(total as int) =~= Seq::<u8>::empty());
        assert(views(reports@) + Seq::<Seq<u8>>::empty() =~= views(reports@));
    }
    reports
}

/// The reports are the chunks of the image framed one by one.
pub proof fn lemma_reports_frame_chunks(data: Seq<u8>, p: WriteImageParameters)
    ensures
        spec_image_reports(data, p) == split_chunks(data, p.image_report_payload_length as nat).map_values(
            |c: Seq<u8>| frame_report(c, p.image_report_length as nat),
        ),
    decreases data.len(),
{
    let size = p.image_report_payload_length as nat;
    let f = |c: Seq<u8>| frame_report(c, p.image_report_length as nat);
    if data.len() == 0 || size == 0 {
        assert(split_chunks(data, size).map_values(f) =~= Seq::<Seq<u8>>::empty());
    } else {
        let n = min_nat(data.len(), size);
        lemma_reports_frame_chunks(data.skip(n as int), p);
        let head = data.take(n as int);
        let rest = split_chunks(data.skip(n as int), size);
        assert((seq![head] + rest).map_values(f) =~= seq![f(head)] + rest.map_values(f));
    }
}

/// Chunking loses nothing: the chunks concatenated in order give back the data, every chunk
/// is non-empty and at most `size` long, and there are exactly `ceil(len / size)` of them.
pub proof fn lemma_split_chunks_reassemble(data: Seq<u8>, size: nat)
    requires
        size > 0,
    ensures
        split_chunks(data, size).flatten() == data,
        split_chunks(data, size).len() == ceil_div(data.len(), size),
        forall|i: int|
            0 <= i < split_chunks(data, size).len() ==> 0 < #[trigger] split_chunks(data, size)[i].len()
                <= size,
    decreases data.len(),
{
    let chunks = split_chunks(data, size);
    if data.len() == 0 {
        assert(chunks =~= Seq::<Seq<u8>>::empty());
        assert(((0 + size - 1) / (size as int)) == 0) by (nonlinear_arith)
            requires
                size > 0,
        ;
    } else {
        let n = min_nat(data.len(), size);
        let rest = data.skip(n as int);
        lemma_split_chunks_reassemble(rest, size);
        let tail = split_chunks(rest, size);
        assert(chunks == seq![data.take(n as int)] + tail);
        assert(chunks.drop_first() =~= tail);
        assert(chunks.first() == data.take(n as int));
        assert(data.take(n as int) + rest =~= data);
        // Count: one chunk for the first `n` bytes, then the rest.
        let len = data.len() as int;
        let s = size as int;
        if len <= s {
            assert(rest.len() == 0);
            assert((len + s - 1) / s == 1) by (nonlinear_arith)
                requires
                    0 < len <= s,
            ;
        } else {
            assert(rest.len() == len - s);
            vstd::arithmetic::div_mod::lemma_div_plus_one(len - s + s - 1, s);
        }
        assert forall|i: int| 0 <= i < chunks.len() implies 0 < #[trigger] chunks[i].len() <= size by {
            if i > 0 {
                assert(chunks[i] == tail[i - 1]);
            }
        }
    }
}

/// Every report is exactly one report long and starts with report id 0.
pub proof fn lemma_reports_shape(data: Seq<u8>, p: WriteImageParameters)
    requires
        p.wf(),
    ensures
        forall|i: int|
            0 <= i < spec_image_reports(data, p).len() ==> {
                &&& (#[trigger] spec_image_reports(data, p)[i]).len() == p.image_report_length
                &&& spec_image_reports(data, p)[i][0] == 0u8
            },
    decreases data.len(),
{
    if data.len() > 0 {
        let n = min_nat(data.len(), p.image_report_payload_length as nat);
        lemma_reports_shape(data.skip(n as int), p);
        let reports = spec_image_reports(data, p);
        let tail = spec_image_reports(data.skip(n as int), p);
        let first = frame_report(data.take(n as int), p.image_report_length as nat);
        assert(reports == seq![first] + tail);
        assert forall|i: int| 0 <= i < reports.len() implies {
            &&& (#[trigger] reports[i]).len() == p.image_report_length
            &&& reports[i][0] == 0u8
        } by {
            if i > 0 {
                assert(reports[i] == tail[i - 1]);
            } else {
                assert((seq![0u8] + data.take(n as int))[0] == 0u8);
            }
        }
    }
}

/// Report `i` carries at offset `k` (from 1, right after its zero report id) the image byte at
/// offset `i * payload + k - 1`, and zero bytes where the image has ended; there are
/// exactly as many reports as payloads needed to hold the image.
pub proof fn lemma_report_bytes(data: Seq<u8>, p: WriteImageParameters)
    requires
        p.wf(),
    ensures
        spec_image_reports(data, p).len() == ceil_div(data.len(), p.image_report_payload_length as nat),
        forall|i: int, k: int|
            0 <= i < spec_image_reports(data, p).len() && 1 <= k <= p.image_report_payload_length ==> {
                &&& i * p.image_report_payload_length + k - 1 < data.len() ==> (
                #[trigger] spec_image_reports(data, p)[i][k]) == data[i * p.image_report_payload_length + k - 1]
                &&& i * p.image_report_payload_length + k - 1 >= data.len() ==> spec_image_reports(data, p)[i][k]
                    == 0u8
            },
    decreases data.len(),
{
    let size = p.image_report_payload_length as nat;
    lemma_reports_frame_chunks(data, p);
    lemma_split_chunks_reassemble(data, size);
    if data.len() > 0 {
        let n = min_nat(data.len(), size);
        let rest = data.skip(n as int);
        lemma_report_bytes(rest, p);
        let reports = spec_image_reports(data, p);
        let tail = spec_image_reports(rest, p);
        let first = frame_report(data.take(n as int), p.image_report_length as nat);
        assert(reports == seq![first] + tail);
        assert forall|i: int, k: int|
            0 <= i < reports.len() && 1 <= k <= size implies {
                &&& i * size + k - 1 < data.len() ==> #[trigger] reports[i][k] == data[i * size + k - 1]
                &&& i * size + k - 1 >= data.len() ==> reports[i][k] == 0u8
            } by {
            let j = k - 1;
            if i == 0 {
                assert(reports[0] == first);
                assert(0 * size + j == j) by (nonlinear_arith);
                if j < n {
                    assert((seq![0u8] + data.take(n as int))[1 + j] == data[j]);
                }
            } else {
                assert(reports[i] == tail[i - 1]);
                assert(tail.len() > 0);
                assert(n == size);
                assert((i - 1) * size + j + size == i * size + j) by (nonlinear_arith);
                assert(0 <= (i - 1) * size) by (nonlinear_arith)
                    requires
                        i >= 1,
                ;
                if i * size + j < data.len() {
                    assert(rest[(i - 1) * size + j] == data[i * size + j]);
                }
            }
        }
    }
}

} // verus!
