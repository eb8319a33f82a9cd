//! The two catalog codecs layered on the record engine: table descriptors
//! and column descriptors. Each converts a typed record to and from the
//! opaque byte encoding the engine stores: fixed-width fields first, then
//! length-prefixed UTF-8 text fields, in a fixed order. Decoding reads the
//! fields in exactly the order and widths encoding wrote them.

use vstd::prelude::*;
use vstd::string::StringSliceAdditionalSpecFns;
use vstd::string::StrSliceExecFns;
use vstd::utf8::{
    decode_utf8, decode_utf8_encode_utf8, encode_utf8, encode_utf8_decode_utf8,
    encode_utf8_valid_utf8, valid_utf8,
};

use crate::engine::{
    append_err, append_ok, read_err, read_ok, PageError, RecordCodec, Storage,
};
use crate::page::{
    copy_out, lemma_u16_le_at, lemma_u32_le_at, push_u16, push_u32, read_u16, read_u32, spec_u16_at,
    spec_u32_at, u16_le, u32_le, PAGE_SIZE,
};

verus! {

/// A table descriptor: the table's identifier and its name.
#[derive(Debug, Clone, PartialEq, Eq)]
pub struct TableMetadata {
    pub table_id: u32,
    pub table_name: String,
}

/// The abstract value of a table descriptor.
pub struct TableMetadataView {
    pub table_id: u32,
    pub table_name: Seq<char>,
}

impl View for TableMetadata {
    type V = TableMetadataView;

    open spec fn view(&self) -> TableMetadataView {
        TableMetadataView { table_id: self.table_id, table_name: self.table_name@ }
    }
}

/// The byte encoding of a table descriptor: `table_id` little-endian, then
/// the name's UTF-8 byte length as a two-byte prefix, then the name's bytes.
pub open spec fn spec_table_encoding(t: TableMetadataView) -> Seq<u8> {
    u32_le(t.table_id) + u16_le(encode_utf8(t.table_name).len() as u16) + encode_utf8(t.table_name)
}

/// The table descriptor decoded from `p` at `off`, with the offset one past
/// its last byte; `None` when a field would run past the page or the name is
/// not valid UTF-8.
pub open spec fn spec_table_decoded(p: Seq<u8>, off: int) -> Option<(TableMetadataView, int)> {
    if 0 <= off && off + 6 <= p.len() {
        let nlen = spec_u16_at(p, off + 4);
        if off + 6 + nlen <= p.len() && valid_utf8(p.subrange(off + 6, off + 6 + nlen)) {
            Some(
                (
                    TableMetadataView {
                        table_id: spec_u32_at(p, off) as u32,
                        table_name: decode_utf8(p.subrange(off + 6, off + 6 + nlen)),
                    },
                    off + 6 + nlen,
                ),
            )
        } else {
            None
        }
    } else {
        None
    }
}

/// Relies on `String::from_utf8`: returns the string whose UTF-8 encoding is
/// exactly the given bytes, or nothing when the bytes are not valid UTF-8.
#[verifier::external_body]
fn bytes_to_string(bytes: Vec<u8>) -> (r: Option<String>)
    ensures
        match r {
            Some(s) => valid_utf8(bytes@) && s@ == decode_utf8(bytes@),
            None => !valid_utf8(bytes@),
        },
{
    String::from_utf8(bytes).ok()
}

/// A slice of a byte sequence that lies somewhere inside `p` equals the
/// matching slice of `p`.
proof fn lemma_nested_subrange(p: Seq<u8>, off: int, s: Seq<u8>, a: int, b: int)
    requires
        0 <= off,
        off + s.len() <= p.len(),
        p.subrange(off, off + s.len() as int) == s,
        0 <= a <= b <= s.len(),
    ensures
        p.subrange(off + a, off + b) == s.subrange(a, b),
{
    assert forall|t: int| 0 <= t < b - a implies p.subrange(off + a, off + b)[t] == s.subrange(
        a,
        b,
    )[t] by {
        assert(s[a + t] == p.subrange(off, off + s.len() as int)[a + t]);
    }
    assert(p.subrange(off + a, off + b) =~= s.subrange(a, b));
}

impl RecordCodec for TableMetadata {
    open spec fn spec_valid(&self) -> bool {
        encode_utf8(self.table_name@).len() <= 0xffff
    }

    open spec fn spec_encoded(&self) -> Seq<u8> {
        spec_table_encoding(self@)
    }

    open spec fn spec_decoded(p: Seq<u8>, off: int) -> Option<(TableMetadataView, int)> {
        spec_table_decoded(p, off)
    }

    proof fn lemma_encode_decode(&self, p: Seq<u8>, off: int) {
        let enc = self.spec_encoded();
        let name_bytes = encode_utf8(self.table_name@);
        let nlen = name_bytes.len() as int;
        assert(enc.len() == 6 + nlen);
        lemma_nested_subrange(p, off, enc, 0, 4);
        assert(enc.subrange(0, 4) =~= u32_le(self.table_id));
        lemma_u32_le_at(p, off, self.table_id);
        lemma_nested_subrange(p, off, enc, 4, 6);
        assert(enc.subrange(4, 6) =~= u16_le(nlen as u16));
        lemma_u16_le_at(p, off + 4, nlen as u16);
        lemma_nested_subrange(p, off, enc, 6, 6 + nlen);
        assert(enc.subrange(6, 6 + nlen) =~= name_bytes);
        encode_utf8_valid_utf8(self.table_name@);
        encode_utf8_decode_utf8(self.table_name@);
        assert(spec_u16_at(p, off + 4) == nlen);
        assert(p.subrange(off + 6, off + 6 + nlen) == name_bytes);
    }

    fn encoded_len(&self) -> (r: Option<usize>) {
        let name_bytes = self.table_name.as_str().as_bytes_vec();
        if name_bytes.len() > 0xffff {
            None
        } else {
            Some(4 + 2 + name_bytes.len())
        }
    }

    fn encode(&self) -> (r: Vec<u8>) {
        let mut data: Vec<u8> = Vec::new();
        push_u32(&mut data, self.table_id);
        let mut name_bytes = self.table_name.as_str().as_bytes_vec();
        push_u16(&mut data, name_bytes.len() as u16);
        data.append(&mut name_bytes);
        proof {
            assert(data@ =~= spec_table_encoding(self@));
        }
        data
    }

    fn decode(p: &Vec<u8>, off: usize) -> (r: Result<(Self, usize), PageError>) {
        let n = p.len();
        if off > n || n - off < 6 {
            return Err(PageError::MalformedRecord);
        }
        let table_id = read_u32(p, off);
        let nlen = read_u16(p, off + 4) as usize;
        if n - (off + 6) < nlen {
            return Err(PageError::MalformedRecord);
        }
        let name_bytes = copy_out(p, off + 6, nlen);
        match bytes_to_string(name_bytes) {
            Some(table_name) => {
                proof {
                    decode_utf8_encode_utf8(p@.subrange(off + 6, off + 6 + nlen as int));
                }
                Ok((TableMetadata { table_id, table_name }, off + 6 + nlen))
            },
            None => Err(PageError::MalformedRecord),
        }
    }
}

/// A column descriptor: the column's identifier, the table it belongs to
/// (a foreign reference the engine does not enforce), its name, its data
/// type stored as text, and whether it is nullable.
#[derive(Debug, Clone, PartialEq, Eq)]
pub struct ColumnMetadata {
    pub column_id: u32,
    pub table_id: u32,
    pub column_name: String,
    pub data_type: String,
    pub is_nullable: bool,
}

/// The abstract value of a column descriptor.
pub struct ColumnMetadataView {
    pub column_id: u32,
    pub table_id: u32,
    pub column_name: Seq<char>,
    pub data_type: Seq<char>,
    pub is_nullable: bool,
}

impl View for ColumnMetadata {
    type V = ColumnMetadataView;

    open spec fn view(&self) -> ColumnMetadataView {
        ColumnMetadataView {
            column_id: self.column_id,
            table_id: self.table_id,
            column_name: self.column_name@,
            data_type: self.data_type@,
            is_nullable: self.is_nullable,
        }
    }
}

/// The byte encoding of a column descriptor: `column_id` and `table_id`
/// little-endian, the length-prefixed UTF-8 name, the length-prefixed UTF-8
/// data type, then one byte holding 1 for nullable and 0 otherwise.
pub open spec fn spec_column_encoding(c: ColumnMetadataView) -> Seq<u8> {
    u32_le(c.column_id) + u32_le(c.table_id) + u16_le(encode_utf8(c.column_name).len() as u16)
        + encode_utf8(c.column_name) + u16_le(encode_utf8(c.data_type).len() as u16) + encode_utf8(
        c.data_type,
    ) + seq![
        if c.is_nullable {
            1u8
        } else {
            0u8
        },
    ]
}

/// The column descriptor decoded from `p` at `off`, with the offset one past
/// its last byte; `None` when a field would run past the page or a text
/// field is not valid UTF-8.
pub open spec fn spec_column_decoded(p: Seq<u8>, off: int) -> Option<(ColumnMetadataView, int)> {
    if 0 <= off && off + 10 <= p.len() {
        let nlen = spec_u16_at(p, off + 8);
        if off + 12 + nlen <= p.len() {
            let dlen = spec_u16_at(p, off + 10 + nlen);
            if off + 13 + nlen + dlen <= p.len() && valid_utf8(
                p.subrange(off + 10, off + 10 + nlen),
            ) && valid_utf8(p.subrange(off + 12 + nlen, off + 12 + nlen + dlen)) {
                Some(
                    (
                        ColumnMetadataView {
                            column_id: spec_u32_at(p, off) as u32,
                            table_id: spec_u32_at(p, off + 4) as u32,
                            column_name: decode_utf8(p.subrange(off + 10, off + 10 + nlen)),
                            data_type: decode_utf8(
                                p.subrange(off + 12 + nlen, off + 12 + nlen + dlen),
                            ),
                            is_nullable: p[off + 12 + nlen + dlen] != 0,
                        },
                        off + 13 + nlen + dlen,
                    ),
                )
            } else {
                None
            }
        } else {
            None
        }
    } else {
        None
    }
}

impl RecordCodec for ColumnMetadata {
    open spec fn spec_valid(&self) -> bool {
        &&& encode_utf8(self.column_name@).len() <= 0xffff
        &&& encode_utf8(self.data_type@).len() <= 0xffff
    }

    open spec fn spec_encoded(&self) -> Seq<u8> {
        spec_column_encoding(self@)
    }

    open spec fn spec_decoded(p: Seq<u8>, off: int) -> Option<(ColumnMetadataView, int)> {
        spec_column_decoded(p, off)
    }

    proof fn lemma_encode_decode(&self, p: Seq<u8>, off: int) {
        let enc = self.spec_encoded();
        let name_bytes = encode_utf8(self.column_name@);
        let type_bytes = encode_utf8(self.data_type@);
        let nlen = name_bytes.len() as int;
        let dlen = type_bytes.len() as int;
        assert(enc.len() == 13 + nlen + dlen);
        lemma_nested_subrange(p, off, enc, 0, 4);
        assert(enc.subrange(0, 4) =~= u32_le(self.column_id));
        lemma_u32_le_at(p, off, self.column_id);
        lemma_nested_subrange(p, off, enc, 4, 8);
        assert(enc.subrange(4, 8) =~= u32_le(self.table_id));
        lemma_u32_le_at(p, off + 4, self.table_id);
        lemma_nested_subrange(p, off, enc, 8, 10);
        assert(enc.subrange(8, 10) =~= u16_le(nlen as u16));
        lemma_u16_le_at(p, off + 8, nlen as u16);
        lemma_nested_subrange(p, off, enc, 10, 10 + nlen);
        assert(enc.subrange(10, 10 + nlen) =~= name_bytes);
        lemma_nested_subrange(p, off, enc, 10 + nlen, 12 + nlen);
        assert(enc.subrange(10 + nlen, 12 + nlen) =~= u16_le(dlen as u16));
        lemma_u16_le_at(p, off + 10 + nlen, dlen as u16);
        lemma_nested_subrange(p, off, enc, 12 + nlen, 12 + nlen + dlen);
        assert(enc.subrange(12 + nlen, 12 + nlen + dlen) =~= type_bytes);
        assert(p[off + 12 + nlen + dlen] == enc[12 + nlen + dlen]);
        assert(enc[12 + nlen + dlen] == if self.is_nullable {
            1u8
        } else {
            0u8
        });
        encode_utf8_valid_utf8(self.column_name@);
        encode_utf8_decode_utf8(self.column_name@);
        encode_utf8_valid_utf8(self.data_type@);
        encode_utf8_decode_utf8(self.data_type@);
        assert(spec_u16_at(p, off + 8) == nlen);
        assert(spec_u16_at(p, off + 10 + nlen) == dlen);
        assert(p.subrange(off + 10, off + 10 + nlen) == name_bytes);
        assert(p.subrange(off + 12 + nlen, off + 12 + nlen + dlen) == type_bytes);
    }

    fn encoded_len(&self) -> (r: Option<usize>) {
        let name_bytes = self.column_name.as_str().as_bytes_vec();
        let type_bytes = self.data_type.as_str().as_bytes_vec();
        if name_bytes.len() > 0xffff || type_bytes.len() > 0xffff {
            None
        } else {
            Some(4 + 4 + 2 + name_bytes.len() + 2 + type_bytes.len() + 1)
        }
    }

    fn encode(&self) -> (r: Vec<u8>) {
        let mut data: Vec<u8> = Vec::new();
        push_u32(&mut data, self.column_id);
        push_u32(&mut data, self.table_id);
        let mut name_bytes = self.column_name.as_str().as_bytes_vec();
        push_u16(&mut data, name_bytes.len() as u16);
        data.append(&mut name_bytes);
        let mut type_bytes = self.data_type.as_str().as_bytes_vec();
        push_u16(&mut data, type_bytes.len() as u16);
        data.append(&mut type_bytes);
        data.push(
            if self.is_nullable {
                1
            } else {
                0
            },
        );
        proof {
            assert(data@ =~= spec_column_encoding(self@));
        }
        data
    }

    fn decode(p: &Vec<u8>, off: usize) -> (r: Result<(Self, usize), PageError>) {
        let n = p.len();
        if off > n || n - off < 10 {
            return Err(PageError::MalformedRecord);
        }
        let column_id = read_u32(p, off);
        let table_id = read_u32(p, off + 4);
        let nlen = read_u16(p, off + 8) as usize;
        if n - (off + 10) < nlen || n - (off + 10 + nlen) < 2 {
            return Err(PageError::MalformedRecord);
        }
        let dlen = read_u16(p, off + 10 + nlen) as usize;
        if n - (off + 12 + nlen) < dlen || n - (off + 12 + nlen + dlen) < 1 {
            return Err(PageError::MalformedRecord);
        }
        let name_bytes = copy_out(p, off + 10, nlen);
        let column_name = match bytes_to_string(name_bytes) {
            Some(s) => s,
            None => {
                return Err(PageError::MalformedRecord);
            },
        };
        let type_bytes = copy_out(p, off + 12 + nlen, dlen);
        let data_type = match bytes_to_string(type_bytes) {
            Some(s) => s,
            None => {
                return Err(PageError::MalformedRecord);
            },
        };
        let is_nullable = p[off + 12 + nlen + dlen] != 0;
        proof {
            decode_utf8_encode_utf8(p@.subrange(off + 10, off + 10 + nlen as int));
            decode_utf8_encode_utf8(
                p@.subrange(off + 12 + nlen as int, off + 12 + nlen as int + dlen as int),
            );
        }
        Ok(
            (
                ColumnMetadata { column_id, table_id, column_name, data_type, is_nullable },
                off + 13 + nlen + dlen,
            ),
        )
    }
}

impl Storage {
    /// Read every table descriptor stored in the page, oldest first.
    pub fn read_postgres_class(&self, p: &Vec<u8>) -> (r: Result<Vec<TableMetadata>, PageError>)
        requires
            p@.len() == PAGE_SIZE,
        ensures
            match r {
                Ok(tables) => read_ok(p@, tables@),
                Err(e) => read_err::<TableMetadata>(p@, e),
            },
    {
        self.read_metadata::<TableMetadata>(p)
    }

    /// Append the given table descriptors to the page, in order; on any
    /// failure the page is left byte-for-byte unchanged.
    pub fn write_postgres_class(&self, p: &mut Vec<u8>, tables: &Vec<TableMetadata>) -> (r: Result<
        (),
        PageError,
    >)
        requires
            old(p)@.len() == PAGE_SIZE,
        ensures
            match r {
                Ok(()) => append_ok(old(p)@, final(p)@, tables@),
                Err(e) => append_err(old(p)@, final(p)@, tables@, e),
            },
    {
        self.write_metadata::<TableMetadata>(p, tables)
    }

    /// Read every column descriptor stored in the page, oldest first.
    pub fn read_postgres_attribute(&self, p: &Vec<u8>) -> (r: Result<
        Vec<ColumnMetadata>,
        PageError,
    >)
        requires
            p@.len() == PAGE_SIZE,
        ensures
            match r {
                Ok(columns) => read_ok(p@, columns@),
                Err(e) => read_err::<ColumnMetadata>(p@, e),
            },
    {
        self.read_metadata::<ColumnMetadata>(p)
    }

    /// Append the given column descriptors to the page, in order; on any
    /// failure the page is left byte-for-byte unchanged.
    pub fn write_postgres_attribute(&self, p: &mut Vec<u8>, columns: &Vec<ColumnMetadata>) -> (r:
        Result<(), PageError>)
        requires
            old(p)@.len() == PAGE_SIZE,
        ensures
            match r {
                Ok(()) => append_ok(old(p)@, final(p)@, columns@),
                Err(e) => append_err(old(p)@, final(p)@, columns@, e),
            },
    {
        self.write_metadata::<ColumnMetadata>(p, columns)
    }
}

} // verus!
