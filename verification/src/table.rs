//! The `Table` container: an eight-byte header (4-byte magic tag, 2-byte
//! version, 2-byte record count) followed by the serialized `Image`
//! records in order.

use vstd::prelude::*;
use vstd::slice::slice_subrange;

use crate::be::{push_u16_be, read_u16_be, u16_be_bytes, u16_from_be};
use crate::image::{image_from_prefix, lemma_image_round_trip, spec_image_from, Image, ImageView};
use crate::CodecError;
use crate::TABLE_HEADER_SIZE;

verus! {

/// A container of sprite records. The on-disk record count is not a field:
/// it is derived from the length of `images` at serialization time.
#[derive(Debug)]
pub struct Table {
    /// Opaque 4-byte format tag; the codec never validates it.
    pub magic: [u8; 4],
    pub version: u16,
    pub images: Vec<Image>,
}

/// Mathematical model of a `Table`.
#[verifier::ext_equal]
pub ghost struct TableView {
    pub magic: Seq<u8>,
    pub version: u16,
    pub images: Seq<ImageView>,
}

impl TableView {
    /// A well-formed table holds exactly four magic bytes and well-formed
    /// records.
    pub open spec fn wf(self) -> bool {
        &&& self.magic.len() == 4
        &&& forall|i: int| 0 <= i < self.images.len() ==> (#[trigger] self.images[i]).wf()
    }

    /// The record count as it is written: the sequence length truncated to
    /// sixteen bits, since the format has no wider count field.
    pub open spec fn stored_count(self) -> u16 {
        (self.images.len() % 0x10000) as u16
    }

    /// The serialized table: magic, version, truncated count, then every
    /// record in order.
    pub open spec fn spec_serialize(self) -> Seq<u8> {
        self.magic + u16_be_bytes(self.version) + u16_be_bytes(self.stored_count())
            + spec_images_bytes(self.images)
    }
}

impl View for Table {
    type V = TableView;

    open spec fn view(&self) -> TableView {
        TableView {
            magic: self.magic@,
            version: self.version,
            images: Seq::new(self.images@.len(), |i: int| self.images@[i]@),
        }
    }
}

/// The record count stored in the header of `b`.
pub open spec fn spec_stored_count_of(b: Seq<u8>) -> u16
    recommends
        b.len() >= 8,
{
    u16_from_be(b[6], b[7])
}

/// The table described by `b`: magic and version from the header, then as
/// many records as the stored count says, read in order from offset 8.
pub open spec fn spec_table_from(b: Seq<u8>) -> TableView
    recommends
        b.len() >= 8 + 16 * (spec_stored_count_of(b) as int),
{
    TableView {
        magic: b.subrange(0, 4),
        version: u16_from_be(b[4], b[5]),
        images: Seq::new(
            spec_stored_count_of(b) as nat,
            |i: int| spec_image_from(b.subrange(8 + 16 * i, 8 + 16 * i + 16)),
        ),
    }
}

impl Table {
    /// Serializes the table: magic, version, the image count truncated to
    /// sixteen bits, then every record in order. The output length is
    /// always `8 + 16 * N` for `N` records.
    pub fn serialize(&self) -> (r: Vec<u8>)
        ensures
            r@ == self@.spec_serialize(),
            r@.len() == 8 + 16 * self.images@.len(),
    {
        let mut buf: Vec<u8> = Vec::new();
        let mut i: usize = 0;
        while i < 4
            invariant
                i <= 4,
                buf@ == self.magic@.take(i as int),
            decreases 4 - i,
        {
            buf.push(self.magic[i]);
            proof {
                assert(buf@ =~= self.magic@.take(i + 1));
            }
            i += 1;
        }
        proof {
            assert(buf@ =~= self.magic@);
        }
        push_u16_be(&mut buf, self.version);
        let count: u16 = (self.images.len() % 0x10000) as u16;
        push_u16_be(&mut buf, count);
        let ghost header: Seq<u8> = self.magic@ + u16_be_bytes(self.version) + u16_be_bytes(
            self@.stored_count(),
        );
        proof {
            assert(count == self@.stored_count());
            assert(buf@ =~= header);
        }
        let mut j: usize = 0;
        while j < self.images.len()
            invariant
                j <= self.images@.len(),
                buf@ == header + spec_images_bytes(self@.images.take(j as int)),
            decreases self.images@.len() - j,
        {
            let mut record = self.images[j].serialize();
            buf.append(&mut record);
            proof {
                let t = self@.images.take(j + 1);
                assert(t.drop_last() =~= self@.images.take(j as int));
                assert(t.last() == self.images@[j as int]@);
                assert(buf@ =~= header + spec_images_bytes(t));
            }
            j += 1;
        }
        proof {
            assert(self@.images.take(self.images@.len() as int) =~= self@.images);
            assert(buf@ =~= self@.spec_serialize());
            assert(forall|i: int|
                0 <= i < self@.images.len() ==> (#[trigger] self@.images[i]).wf());
            lemma_images_bytes_len(self@.images);
        }
        buf
    }

    /// Deserializes a table. Fails exactly when the buffer is too short
    /// for the header or for as many records as the stored count demands;
    /// bytes after the last stated record are ignored.
    pub fn deserialize(bytes: &[u8]) -> (r: Result<Table, CodecError>)
        ensures
            bytes@.len() >= 8 + 16 * (spec_stored_count_of(bytes@) as int) ==> (r matches Ok(t)
                && t@ == spec_table_from(bytes@)),
            bytes@.len() < 8 + 16 * (spec_stored_count_of(bytes@) as int) <==> (r matches Err(e)
                && e == CodecError::UnexpectedEnd),
    {
        if bytes.len() < TABLE_HEADER_SIZE {
            return Err(CodecError::UnexpectedEnd);
        }
        let mut magic: [u8; 4] = [0; 4];
        let mut i: usize = 0;
        while i < 4
            invariant
                i <= 4,
                bytes@.len() >= 8,
                forall|k: int| 0 <= k < i ==> magic@[k] == bytes@[k],
            decreases 4 - i,
        {
            magic[i] = bytes[i];
            i += 1;
        }
        proof {
            assert(magic@ =~= bytes@.subrange(0, 4));
        }
        let version = read_u16_be(bytes[4], bytes[5]);
        let count = read_u16_be(bytes[6], bytes[7]);
        let count_us: usize = count as usize;
        let needed: usize = 8 + 16 * count_us;
        if bytes.len() < needed {
            return Err(CodecError::UnexpectedEnd);
        }
        let mut images: Vec<Image> = Vec::with_capacity(count_us);
        let mut j: usize = 0;
        while j < count_us
            invariant
                j <= count_us,
                count_us == spec_stored_count_of(bytes@),
                bytes@.len() >= 8 + 16 * count_us,
                images@.len() == j,
                forall|k: int|
                    0 <= k < j ==> (#[trigger] images@[k])@ == spec_image_from(
                        bytes@.subrange(8 + 16 * k, 8 + 16 * k + 16),
                    ),
            decreases count_us - j,
        {
            let start = 8 + 16 * j;
            let record = slice_subrange(bytes, start, start + 16);
            images.push(image_from_prefix(record));
            j += 1;
        }
        let table = Table { magic, version, images };
        proof {
            assert(table@.images =~= spec_table_from(bytes@).images);
            assert(table@ =~= spec_table_from(bytes@));
        }
        Ok(table)
    }
}

/// Any well-formed table of at most 65535 records is recovered exactly
/// from its own serialization: magic, version, count and every record in
/// order.
pub proof fn lemma_table_round_trip(t: TableView)
    requires
        t.wf(),
        t.images.len() <= 0xFFFF,
    ensures
        t.spec_serialize().len() == 8 + 16 * t.images.len(),
        spec_table_from(t.spec_serialize()) == t,
{
    let b = t.spec_serialize();
    lemma_images_bytes_len(t.images);
    assert(t.stored_count() == t.images.len());
    assert(b.subrange(0, 4) =~= t.magic);
    assert(b[4] == u16_be_bytes(t.version)[0]);
    assert(b[5] == u16_be_bytes(t.version)[1]);
    assert(b[6] == u16_be_bytes(t.stored_count())[0]);
    assert(b[7] == u16_be_bytes(t.stored_count())[1]);
    crate::be::lemma_u16_be_round_trip(t.version);
    crate::be::lemma_u16_be_round_trip(t.stored_count());
    let parsed = spec_table_from(b);
    assert(parsed.version == t.version);
    assert(parsed.images.len() == t.images.len());
    assert forall|i: int| 0 <= i < t.images.len() implies parsed.images[i] == t.images[i] by {
        lemma_images_bytes_index(t.images, i);
        lemma_image_round_trip(t.images[i]);
        assert(b.subrange(8 + 16 * i, 8 + 16 * i + 16) =~= spec_images_bytes(t.images).subrange(
            16 * i,
            16 * i + 16,
        ));
    }
    assert(parsed.images =~= t.images);
    assert(parsed =~= t);
}

/// Bytes after the last stated record play no part in what is parsed:
/// a table read from a buffer with trailing bytes appended is the table
/// read from the buffer alone.
pub proof fn lemma_trailing_bytes_ignored(b: Seq<u8>, extra: Seq<u8>)
    requires
        b.len() >= 8 + 16 * (spec_stored_count_of(b) as int),
    ensures
        spec_table_from(b + extra) == spec_table_from(b),
{
    let all = b + extra;
    assert(spec_stored_count_of(all) == spec_stored_count_of(b));
    assert(all.subrange(0, 4) =~= b.subrange(0, 4));
    let count = spec_stored_count_of(b) as int;
    assert forall|i: int| 0 <= i < count implies spec_table_from(all).images[i] == spec_table_from(
        b,
    ).images[i] by {
        assert(all.subrange(8 + 16 * i, 8 + 16 * i + 16) =~= b.subrange(
            8 + 16 * i,
            8 + 16 * i + 16,
        ));
    }
    assert(spec_table_from(all).images =~= spec_table_from(b).images);
    assert(spec_table_from(all) =~= spec_table_from(b));
}

/// The concatenated serializations of a sequence of records.
pub open spec fn spec_images_bytes(images: Seq<ImageView>) -> Seq<u8>
    decreases images.len(),
{
    if images.len() == 0 {
        Seq::empty()
    } else {
        spec_images_bytes(images.drop_last()) + images.last().spec_serialize()
    }
}

/// Each record contributes exactly sixteen bytes.
pub proof fn lemma_images_bytes_len(images: Seq<ImageView>)
    requires
        forall|i: int| 0 <= i < images.len() ==> (#[trigger] images[i]).wf(),
    ensures
        spec_images_bytes(images).len() == 16 * images.len(),
    decreases images.len(),
{
    if images.len() > 0 {
        lemma_images_bytes_len(images.drop_last());
        lemma_image_serialize_len(images.last());
    }
}

proof fn lemma_image_serialize_len(v: ImageView)
    requires
        v.wf(),
    ensures
        v.spec_serialize().len() == 16,
{
}

/// Record `i` occupies bytes `16 * i .. 16 * i + 16` of the concatenation.
pub proof fn lemma_images_bytes_index(images: Seq<ImageView>, i: int)
    requires
        forall|j: int| 0 <= j < images.len() ==> (#[trigger] images[j]).wf(),
        0 <= i < images.len(),
    ensures
        spec_images_bytes(images).subrange(16 * i, 16 * i + 16) == images[i].spec_serialize(),
    decreases images.len(),
{
    lemma_images_bytes_len(images);
    let b = spec_images_bytes(images);
    let prefix = spec_images_bytes(images.drop_last());
    lemma_images_bytes_len(images.drop_last());
    lemma_image_serialize_len(images.last());
    if i == images.len() - 1 {
        assert(b.subrange(16 * i, 16 * i + 16) =~= images.last().spec_serialize());
    } else {
        lemma_images_bytes_index(images.drop_last(), i);
        assert(b.subrange(16 * i, 16 * i + 16) =~= prefix.subrange(16 * i, 16 * i + 16));
    }
}

} // verus!
