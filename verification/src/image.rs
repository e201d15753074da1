//! The fixed-size `Image` record: a content hash, an identifier, a
//! horizontal offset and the sprite's dimensions, serialized as exactly
//! sixteen bytes.

use vstd::prelude::*;
use vstd::string::StringExecFns;

use crate::be::{push_u16_be, read_u16_be, u16_be_bytes, u16_from_be};
use crate::CodecError;
use crate::IMAGE_SIZE;

verus! {

/// One sprite-metadata record.
#[derive(Debug)]
pub struct Image {
    /// Opaque 8-byte content identifier; raw bytes, never interpreted
    /// numerically.
    pub hash: [u8; 8],
    pub id: u16,
    pub x_offset: u16,
    pub width: u16,
    pub height: u16,
}

/// Mathematical model of an `Image`: the hash as a byte sequence, the
/// integer fields as themselves.
#[verifier::ext_equal]
pub ghost struct ImageView {
    pub hash: Seq<u8>,
    pub id: u16,
    pub x_offset: u16,
    pub width: u16,
    pub height: u16,
}

impl ImageView {
    /// A well-formed record holds exactly eight hash bytes.
    pub open spec fn wf(self) -> bool {
        self.hash.len() == 8
    }

    /// The sixteen bytes of the record: hash, then id, x offset, width and
    /// height, each integer big-endian.
    pub open spec fn spec_serialize(self) -> Seq<u8> {
        self.hash + u16_be_bytes(self.id) + u16_be_bytes(self.x_offset) + u16_be_bytes(self.width)
            + u16_be_bytes(self.height)
    }
}

impl View for Image {
    type V = ImageView;

    open spec fn view(&self) -> ImageView {
        ImageView {
            hash: self.hash@,
            id: self.id,
            x_offset: self.x_offset,
            width: self.width,
            height: self.height,
        }
    }
}

/// The record described by the first sixteen bytes of `b`.
pub open spec fn spec_image_from(b: Seq<u8>) -> ImageView
    recommends
        b.len() >= 16,
{
    ImageView {
        hash: b.subrange(0, 8),
        id: u16_from_be(b[8], b[9]),
        x_offset: u16_from_be(b[10], b[11]),
        width: u16_from_be(b[12], b[13]),
        height: u16_from_be(b[14], b[15]),
    }
}

impl Image {
    /// Serializes the record to exactly sixteen bytes: hash, id, x offset,
    /// width, height, integers big-endian.
    pub fn serialize(&self) -> (r: Vec<u8>)
        ensures
            r@ == self@.spec_serialize(),
            r@.len() == 16,
    {
        let mut buf: Vec<u8> = Vec::with_capacity(IMAGE_SIZE);
        let mut i: usize = 0;
        while i < 8
            invariant
                i <= 8,
                buf@ == self.hash@.take(i as int),
            decreases 8 - i,
        {
            buf.push(self.hash[i]);
            proof {
                assert(buf@ =~= self.hash@.take(i + 1));
            }
            i += 1;
        }
        proof {
            assert(buf@ =~= self.hash@);
        }
        push_u16_be(&mut buf, self.id);
        push_u16_be(&mut buf, self.x_offset);
        push_u16_be(&mut buf, self.width);
        push_u16_be(&mut buf, self.height);
        proof {
            assert(buf@ =~= self@.spec_serialize());
        }
        buf
    }

    /// Derives the record's stable external file name: each hash byte as
    /// two lowercase hex digits, in hash order, then `.png`. Total, and a
    /// pure function of the hash bytes only.
    pub fn get_file_name(&self) -> (r: String)
        ensures
            r@ == spec_file_name(self.hash@),
    {
        let mut name = String::new();
        let mut i: usize = 0;
        while i < 8
            invariant
                i <= 8,
                name@ == hex_chars(self.hash@.take(i as int)),
            decreases 8 - i,
        {
            let b = self.hash[i];
            name.append(hex_str(b / 16));
            name.append(hex_str(b % 16));
            proof {
                let t = self.hash@.take(i + 1);
                assert(t.drop_last() =~= self.hash@.take(i as int));
                assert(t.last() == self.hash@[i as int]);
                assert(name@ =~= hex_chars(t));
            }
            i += 1;
        }
        proof {
            assert(self.hash@.take(8) =~= self.hash@);
            reveal_strlit(".png");
            assert(".png"@ =~= seq!['.', 'p', 'n', 'g']);
        }
        name.append(".png");
        proof {
            assert(name@ =~= spec_file_name(self.hash@));
        }
        name
    }

    /// Deserializes one record from the first sixteen bytes of `bytes`.
    /// Fails exactly when fewer than sixteen bytes are available; bytes
    /// beyond the record are ignored.
    pub fn deserialize(bytes: &[u8]) -> (r: Result<Image, CodecError>)
        ensures
            bytes@.len() >= 16 ==> (r matches Ok(img) && img@ == spec_image_from(bytes@)),
            bytes@.len() < 16 <==> (r matches Err(e) && e == CodecError::UnexpectedEnd),
    {
        if bytes.len() < IMAGE_SIZE {
            return Err(CodecError::UnexpectedEnd);
        }
        Ok(image_from_prefix(bytes))
    }
}

/// Reads the record that the first sixteen bytes of `bytes` describe.
pub(crate) fn image_from_prefix(bytes: &[u8]) -> (img: Image)
    requires
        bytes@.len() >= 16,
    ensures
        img@ == spec_image_from(bytes@),
{
    let mut hash: [u8; 8] = [0; 8];
    let mut i: usize = 0;
    while i < 8
        invariant
            i <= 8,
            bytes@.len() >= 16,
            forall|j: int| 0 <= j < i ==> hash@[j] == bytes@[j],
        decreases 8 - i,
    {
        hash[i] = bytes[i];
        i += 1;
    }
    proof {
        assert(hash@ =~= bytes@.subrange(0, 8));
    }
    let id = read_u16_be(bytes[8], bytes[9]);
    let x_offset = read_u16_be(bytes[10], bytes[11]);
    let width = read_u16_be(bytes[12], bytes[13]);
    let height = read_u16_be(bytes[14], bytes[15]);
    Image { hash, id, x_offset, width, height }
}

/// The lowercase hexadecimal digit for `n`, for `0 <= n < 16`.
pub open spec fn hex_digit(n: int) -> char {
    if n == 0 {
        '0'
    } else if n == 1 {
        '1'
    } else if n == 2 {
        '2'
    } else if n == 3 {
        '3'
    } else if n == 4 {
        '4'
    } else if n == 5 {
        '5'
    } else if n == 6 {
        '6'
    } else if n == 7 {
        '7'
    } else if n == 8 {
        '8'
    } else if n == 9 {
        '9'
    } else if n == 10 {
        'a'
    } else if n == 11 {
        'b'
    } else if n == 12 {
        'c'
    } else if n == 13 {
        'd'
    } else if n == 14 {
        'e'
    } else {
        'f'
    }
}

/// Each byte of `s` rendered as exactly two lowercase hexadecimal digits,
/// zero-padded, concatenated in order with no separators.
pub open spec fn hex_chars(s: Seq<u8>) -> Seq<char>
    decreases s.len(),
{
    if s.len() == 0 {
        Seq::empty()
    } else {
        hex_chars(s.drop_last()) + seq![
            hex_digit(s.last() as int / 16),
            hex_digit(s.last() as int % 16),
        ]
    }
}

/// The file name derived from a record's hash bytes: sixteen hex digits
/// followed by the fixed `.png` suffix.
pub open spec fn spec_file_name(hash: Seq<u8>) -> Seq<char> {
    hex_chars(hash) + seq!['.', 'p', 'n', 'g']
}

/// The file name is a function of the hash bytes alone: two records with
/// the same hash derive the same name, whatever their other fields hold.
pub proof fn lemma_file_name_depends_only_on_hash(a: ImageView, b: ImageView)
    requires
        a.hash == b.hash,
    ensures
        spec_file_name(a.hash) == spec_file_name(b.hash),
{
}

/// The string slice holding the single hexadecimal digit for `n`.
fn hex_str(n: u8) -> (r: &'static str)
    requires
        n < 16,
    ensures
        r@ == seq![hex_digit(n as int)],
{
    match n {
        0 => {
            proof {
                reveal_strlit("0");
                assert("0"@ =~= seq![hex_digit(0)]);
            }
            "0"
        },
        1 => {
            proof {
                reveal_strlit("1");
                assert("1"@ =~= seq![hex_digit(1)]);
            }
            "1"
        },
        2 => {
            proof {
                reveal_strlit("2");
                assert("2"@ =~= seq![hex_digit(2)]);
            }
            "2"
        },
        3 => {
            proof {
                reveal_strlit("3");
                assert("3"@ =~= seq![hex_digit(3)]);
            }
            "3"
        },
        4 => {
            proof {
                reveal_strlit("4");
                assert("4"@ =~= seq![hex_digit(4)]);
            }
            "4"
        },
        5 => {
            proof {
                reveal_strlit("5");
                assert("5"@ =~= seq![hex_digit(5)]);
            }
            "5"
        },
        6 => {
            proof {
                reveal_strlit("6");
                assert("6"@ =~= seq![hex_digit(6)]);
            }
            "6"
        },
        7 => {
            proof {
                reveal_strlit("7");
                assert("7"@ =~= seq![hex_digit(7)]);
            }
            "7"
        },
        8 => {
            proof {
                reveal_strlit("8");
                assert("8"@ =~= seq![hex_digit(8)]);
            }
            "8"
        },
        9 => {
            proof {
                reveal_strlit("9");
                assert("9"@ =~= seq![hex_digit(9)]);
            }
            "9"
        },
        10 => {
            proof {
                reveal_strlit("a");
                assert("a"@ =~= seq![hex_digit(10)]);
            }
            "a"
        },
        11 => {
            proof {
                reveal_strlit("b");
                assert("b"@ =~= seq![hex_digit(11)]);
            }
            "b"
        },
        12 => {
            proof {
                reveal_strlit("c");
                assert("c"@ =~= seq![hex_digit(12)]);
            }
            "c"
        },
        13 => {
            proof {
                reveal_strlit("d");
                assert("d"@ =~= seq![hex_digit(13)]);
            }
            "d"
        },
        14 => {
            proof {
                reveal_strlit("e");
                assert("e"@ =~= seq![hex_digit(14)]);
            }
            "e"
        },
        _ => {
            proof {
                reveal_strlit("f");
                assert("f"@ =~= seq![hex_digit(15)]);
            }
            "f"
        },
    }
}

/// Any well-formed record is recovered exactly from its own serialization.
pub proof fn lemma_image_round_trip(v: ImageView)
    requires
        v.wf(),
    ensures
        v.spec_serialize().len() == 16,
        spec_image_from(v.spec_serialize()) == v,
{
    let b = v.spec_serialize();
    assert(b.subrange(0, 8) =~= v.hash);
    assert(spec_image_from(b) =~= v);
}

} // verus!
