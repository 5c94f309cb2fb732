//! Key images waiting to be sent, and the packets that send them.
use vstd::prelude::*;

use crate::bytes::{lemma_views_push, views};
use crate::error::AjazzError;
use crate::kind::{lemma_display_keys_announceable, Kind};
use crate::reports::{image_data_reports, params_for, spec_image_reports, WriteImageParameters};

verus! {

/// An image waiting to be sent to a key.
#[derive(Debug)]
pub struct ImageCacheEntry {
    /// The key the image is for.
    pub key: u8,
    /// The encoded image.
    pub image_data: Vec<u8>,
}

/// Images waiting to be flushed to a device, in the order they were set. Every cached key is
/// one of the device's display keys.
#[derive(Debug)]
pub struct ImageCache {
    kind: Kind,
    entries: Vec<ImageCacheEntry>,
}

/// The packets that send one key image: the announce packet, then the image's reports.
pub open spec fn spec_key_image_packets(kind: Kind, key: u8, image_data: Seq<u8>) -> Seq<Seq<u8>> {
    seq![kind.spec_key_image_announce_packet(key, image_data.len())] + spec_image_reports(
        image_data,
        params_for(kind),
    )
}

/// Sends one key image, refusing keys that do not show images.
pub fn key_image_packets(kind: Kind, key: u8, image_data: &[u8]) -> (r: Result<Vec<Vec<u8>>, AjazzError>)
    ensures
        key >= kind.spec_display_key_count() ==> r == Err::<Vec<Vec<u8>>, AjazzError>(AjazzError::InvalidKeyIndex(key)),
        key < kind.spec_display_key_count() ==> (r matches Ok(p) && views(p@) == spec_key_image_packets(kind, key, image_data@)),
{
    if key >= kind.display_key_count() {
        return Err(AjazzError::InvalidKeyIndex(key));
    }
    proof {
        lemma_display_keys_announceable(kind, key);
    }
    let mut packets: Vec<Vec<u8>> = Vec::new();
    let announce = kind.key_image_announce_packet(key, image_data);
    proof {
        lemma_views_push(packets@, announce);
    }
    packets.push(announce);
    let mut reports = image_data_reports(image_data, WriteImageParameters::for_kind(kind));
    let ghost before = packets@;
    let ghost rs = reports@;
    packets.append(&mut reports);
    proof {
        assert(views(packets@) =~= views(before) + views(rs));
        assert(views(packets@) =~= spec_key_image_packets(kind, key, image_data@));
    }
    Ok(packets)
}

/// On the N1 a key image is sent as a `BAT` announce carrying the image's big-endian 16-bit
/// size and the key's one-based index, then the image in reports of 1024 data bytes.
pub proof fn lemma_n1_key_image_packets(key: u8, image_data: Seq<u8>)
    ensures
        spec_key_image_packets(Kind::AkpN1, key, image_data) == seq![
            Kind::AkpN1.spec_image_announce_packet((key + 1) as u8, image_data.len()),
        ] + spec_image_reports(
            image_data,
            WriteImageParameters { image_report_length: 1025, image_report_payload_length: 1024 },
        ),
{
}

/// What flushing the cache sends.
#[derive(Debug)]
pub enum FlushPlan {
    /// Nothing is cached: nothing to send.
    Nothing,
    /// The packets to write in order.
    Packets(Vec<Vec<u8>>),
}

/// The packets that flush `entries`: each image in order, then the flush command.
pub open spec fn spec_flush_packets(kind: Kind, entries: Seq<(u8, Seq<u8>)>) -> Seq<Seq<u8>> {
    entries.map_values(|e: (u8, Seq<u8>)| spec_key_image_packets(kind, e.0, e.1)).flatten().push(
        kind.spec_flush_packet(),
    )
}

impl ImageCache {
    /// Every cached key is a display key of the cache's model.
    pub closed spec fn wf(self) -> bool {
        forall|i: int| 0 <= i < self.entries@.len() ==> #[trigger] self.entries@[i].key < self.kind.spec_display_key_count()
    }

    /// The model the images are for.
    pub closed spec fn spec_kind(self) -> Kind {
        self.kind
    }

    /// The cached keys and images, in the order they were set.
    pub closed spec fn view_entries(self) -> Seq<(u8, Seq<u8>)> {
        self.entries@.map_values(|e: ImageCacheEntry| (e.key, e.image_data@))
    }

    /// An empty cache for `kind`.
    pub fn new(kind: Kind) -> (r: ImageCache)
        ensures
            r.wf(),
            r.spec_kind() == kind,
            r.view_entries() == Seq::<(u8, Seq<u8>)>::empty(),
    {
        let r = ImageCache { kind, entries: Vec::new() };
        proof {
            assert(r.view_entries() =~= Seq::<(u8, Seq<u8>)>::empty());
        }
        r
    }

    /// The model the images are for.
    pub fn kind(&self) -> (r: Kind)
        ensures
            r == self.spec_kind(),
    {
        self.kind
    }

    /// Every cached key is a display key of the cache's model.
    pub proof fn lemma_keys_displayable(self)
        requires
            self.wf(),
        ensures
            forall|i: int|
                0 <= i < self.view_entries().len() ==> (#[trigger] self.view_entries()[i]).0
                    < self.spec_kind().spec_display_key_count(),
    {
    }

    /// Whether nothing is cached.
    pub fn is_empty(&self) -> (r: bool)
        ensures
            r == (self.view_entries().len() == 0),
    {
        self.entries.len() == 0
    }

    /// Caches `image_data` for `key`, refusing keys that do not show images.
    pub fn write(&mut self, key: u8, image_data: &[u8]) -> (r: Result<(), AjazzError>)
        requires
            old(self).wf(),
        ensures
            final(self).wf(),
            final(self).spec_kind() == old(self).spec_kind(),
            key >= old(self).spec_kind().spec_display_key_count() ==> {
                &&& r == Err::<(), AjazzError>(AjazzError::InvalidKeyIndex(key))
                &&& final(self).view_entries() == old(self).view_entries()
            },
            key < old(self).spec_kind().spec_display_key_count() ==> {
                &&& r is Ok
                &&& final(self).view_entries() == old(self).view_entries().push((key, image_data@))
            },
    {
        if key >= self.kind.display_key_count() {
            return Err(AjazzError::InvalidKeyIndex(key));
        }
        let mut data: Vec<u8> = Vec::new();
        crate::bytes::push_all(&mut data, image_data);
        let entry = ImageCacheEntry { key, image_data: data };
        self.entries.push(entry);
        proof {
            assert(self.view_entries() =~= old(self).view_entries().push((key, image_data@)));
        }
        Ok(())
    }

    /// Forgets every cached image.
    pub fn clear(&mut self)
        ensures
            final(self).wf(),
            final(self).spec_kind() == old(self).spec_kind(),
            final(self).view_entries() == Seq::<(u8, Seq<u8>)>::empty(),
    {
        self.entries = Vec::new();
        proof {
            assert(self.view_entries() =~= Seq::<(u8, Seq<u8>)>::empty());
        }
    }

    /// What flushing the cache sends. Cached keys were checked when they were set, so sending
    /// them cannot fail.
    pub fn flush_plan(&self) -> (r: FlushPlan)
        requires
            self.wf(),
        ensures
            self.view_entries().len() == 0 ==> r is Nothing,
            self.view_entries().len() > 0 ==> (r matches FlushPlan::Packets(p)
                && views(p@) == spec_flush_packets(self.spec_kind(), self.view_entries())),
    {
        if self.entries.len() == 0 {
            return FlushPlan::Nothing;
        }
        let ghost entries = self.view_entries();
        let ghost f = |e: (u8, Seq<u8>)| spec_key_image_packets(self.kind, e.0, e.1);
        let mut packets: Vec<Vec<u8>> = Vec::new();
        let mut i: usize = 0;
        proof {
            assert(entries.take(0).map_values(f) =~= Seq::<Seq<Seq<u8>>>::empty());
            assert(views(packets@) =~= Seq::<Seq<u8>>::empty());
        }
        while i < self.entries.len()
            invariant
                i <= self.entries@.len(),
                entries == self.view_entries(),
                entries.len() == self.entries@.len(),
                f == (|e: (u8, Seq<u8>)| spec_key_image_packets(self.kind, e.0, e.1)),
                forall|j: int| 0 <= j < self.entries@.len() ==> #[trigger] self.entries@[j].key < self.kind.spec_display_key_count(),
                views(packets@) == entries.take(i as int).map_values(f).flatten(),
            decreases self.entries@.len() - i,
        {
            let entry = &self.entries[i];
            let sent = key_image_packets(self.kind, entry.key, entry.image_data.as_slice());
            let mut more = match sent {
                Ok(p) => p,
                Err(_) => {
                    proof {
                        assert(false);
                    }
                    Vec::new()
                },
            };
            let ghost before = packets@;
            let ghost added = more@;
            packets.append(&mut more);
            proof {
                assert(entries[i as int] == (entry.key, entry.image_data@));
                assert(views(packets@) =~= views(before) + views(added));
                assert(entries.take(i + 1).map_values(f) =~= entries.take(i as int).map_values(f).push(
                    f(entries[i as int]),
                ));
                entries.take(i as int).map_values(f).lemma_flatten_push(f(entries[i as int]));
            }
            i = i + 1;
        }
        let flush = self.kind.flush_packet();
        proof {
            assert(entries.take(entries.len() as int) =~= entries);
            lemma_views_push(packets@, flush);
        }
        packets.push(flush);
        FlushPlan::Packets(packets)
    }
}

/// Flushing always ends with the flush command. Flushing one cached image sends that image's
/// packets and then the flush command, and caching one more image inserts its packets just
/// before the flush command, after everything that was cached before, which is sent as it was.
pub proof fn lemma_flush_after_write(kind: Kind, entries: Seq<(u8, Seq<u8>)>, key: u8, image_data: Seq<u8>)
    ensures
        spec_flush_packets(kind, entries).last() == kind.spec_flush_packet(),
        spec_flush_packets(kind, seq![(key, image_data)]) == spec_key_image_packets(kind, key, image_data).push(
            kind.spec_flush_packet(),
        ),
        spec_flush_packets(kind, entries.push((key, image_data))) == spec_flush_packets(kind, entries).drop_last()
            + spec_key_image_packets(kind, key, image_data).push(kind.spec_flush_packet()),
{
    let f = |e: (u8, Seq<u8>)| spec_key_image_packets(kind, e.0, e.1);
    let x = (key, image_data);
    assert(entries.push(x).map_values(f) =~= entries.map_values(f).push(f(x)));
    entries.map_values(f).lemma_flatten_push(f(x));
    let before = entries.map_values(f).flatten();
    assert(spec_flush_packets(kind, entries).drop_last() =~= before);
    assert((before + f(x)).push(kind.spec_flush_packet()) =~= before + f(x).push(kind.spec_flush_packet()));
    let one = seq![x];
    assert(one =~= Seq::<(u8, Seq<u8>)>::empty().push(x));
    assert(Seq::<(u8, Seq<u8>)>::empty().map_values(f) =~= Seq::<Seq<Seq<u8>>>::empty());
    assert(one.map_values(f) =~= Seq::<Seq<Seq<u8>>>::empty().push(f(x)));
    Seq::<Seq<Seq<u8>>>::empty().lemma_flatten_push(f(x));
    assert(Seq::<Seq<Seq<u8>>>::empty().flatten() =~= Seq::<Seq<u8>>::empty());
    assert(Seq::<Seq<u8>>::empty() + f(x) =~= f(x));
}

} // verus!
