//! Schemas, fields and the field-to-dictionary mapping.
//!
//! A schema is an ordered sequence of named, typed fields; it is fixed when a
//! stream starts. Each dictionary-encoded field carries a numeric dictionary
//! identifier in the mapping; when the caller supplies no mapping, ascending
//! identifiers are assigned to the dictionary-encoded fields in field order.

use vstd::prelude::*;

use crate::wire::{le32_bytes, le64_bytes};

verus! {

/// The column types this stream can carry: plain 64-bit integers, or
/// dictionary-encoded byte strings.
#[derive(Clone, Copy, PartialEq, Eq, Structural, Debug)]
pub enum DataType {
    UInt64,
    DictionaryBinary,
}

/// One named, typed schema field.
pub struct Field {
    pub name: Vec<u8>,
    pub data_type: DataType,
}

/// The mathematical value of a [`Field`].
pub ghost struct FieldV {
    pub name: Seq<u8>,
    pub data_type: DataType,
}

impl View for Field {
    type V = FieldV;

    open spec fn view(&self) -> FieldV {
        FieldV { name: self.name@, data_type: self.data_type }
    }
}

/// An ordered sequence of fields, immutable once a stream has started.
pub struct Schema {
    pub fields: Vec<Field>,
}

impl View for Schema {
    type V = Seq<FieldV>;

    open spec fn view(&self) -> Seq<FieldV> {
        self.fields@.map_values(|f: Field| f@)
    }
}

impl Schema {
    /// Machine limits that let the schema header be framed: its length prefix
    /// must fit in four bytes.
    pub open spec fn wf(&self) -> bool {
        &&& self@.len() <= 0x7FFF
        &&& forall|i: int| 0 <= i < self@.len() ==> (#[trigger] self@[i].name).len() <= 0xFFFF
    }
}

/// The dictionary assignment of one field: `Some` identifier exactly when the
/// field is dictionary-encoded.
#[derive(Clone, Copy, PartialEq, Eq, Structural, Debug)]
pub struct IpcField {
    pub dictionary_id: Option<u64>,
}

/// A mapping mirrors a schema when it assigns an identifier to a field if and
/// only if that field is dictionary-encoded.
pub open spec fn mapping_matches(fields: Seq<FieldV>, mapping: Seq<IpcField>) -> bool {
    &&& mapping.len() == fields.len()
    &&& forall|i: int|
        0 <= i < fields.len() ==> ((fields[i].data_type is DictionaryBinary) <==> (
        #[trigger] mapping[i].dictionary_id) is Some)
}

/// The mapping derived from a schema: ascending identifiers, starting at
/// `next`, for the dictionary-encoded fields in field order.
pub open spec fn default_mapping_from(fields: Seq<FieldV>, next: nat) -> Seq<IpcField>
    decreases fields.len(),
{
    if fields.len() == 0 {
        Seq::<IpcField>::empty()
    } else if fields[0].data_type is DictionaryBinary {
        seq![IpcField { dictionary_id: Some(next as u64) }] + default_mapping_from(
            fields.subrange(1, fields.len() as int),
            next + 1,
        )
    } else {
        seq![IpcField { dictionary_id: None }] + default_mapping_from(
            fields.subrange(1, fields.len() as int),
            next,
        )
    }
}

pub proof fn lemma_default_mapping_matches(fields: Seq<FieldV>, next: nat)
    ensures
        mapping_matches(fields, default_mapping_from(fields, next)),
    decreases fields.len(),
{
    if fields.len() > 0 {
        lemma_default_mapping_matches(fields.subrange(1, fields.len() as int), next + 1);
        lemma_default_mapping_matches(fields.subrange(1, fields.len() as int), next);
    }
}

/// Derives the default field-to-dictionary mapping for a schema: ascending
/// identifiers from zero, in field order, for its dictionary-encoded fields.
pub fn default_ipc_fields(fields: &Vec<Field>) -> (r: Vec<IpcField>)
    ensures
        r@ == default_mapping_from(fields@.map_values(|f: Field| f@), 0),
{
    let ghost all = fields@.map_values(|f: Field| f@);
    let mut r: Vec<IpcField> = Vec::new();
    let mut next: u64 = 0;
    let mut i: usize = 0;
    proof {
        assert(all.subrange(0, all.len() as int) =~= all);
        assert(Seq::<IpcField>::empty() + default_mapping_from(all, 0) =~= default_mapping_from(
            all,
            0,
        ));
    }
    while i < fields.len()
        invariant
            i <= fields.len(),
            all == fields@.map_values(|f: Field| f@),
            all.len() == fields@.len(),
            next <= i,
            default_mapping_from(all, 0) == r@ + default_mapping_from(
                all.subrange(i as int, all.len() as int),
                next as nat,
            ),
        decreases fields.len() - i,
    {
        let ghost rest = all.subrange(i as int, all.len() as int);
        let entry = match fields[i].data_type {
            DataType::DictionaryBinary => {
                let id = next;
                next = next + 1;
                IpcField { dictionary_id: Some(id) }
            },
            DataType::UInt64 => IpcField { dictionary_id: None },
        };
        r.push(entry);
        i = i + 1;
        proof {
            assert(rest[0] == all[i - 1]);
            assert(rest.subrange(1, rest.len() as int) =~= all.subrange(i as int, all.len() as int));
            assert((r@.drop_last() + (seq![entry] + default_mapping_from(
                all.subrange(i as int, all.len() as int),
                next as nat,
            ))) =~= (r@ + default_mapping_from(
                all.subrange(i as int, all.len() as int),
                next as nat,
            )));
        }
    }
    proof {
        assert(all.subrange(i as int, all.len() as int) =~= Seq::<FieldV>::empty());
        assert(r@ + Seq::<IpcField>::empty() =~= r@);
    }
    r
}

/// The header bytes of one field: a length-prefixed name, then a tag byte
/// that is zero for a plain field and one, followed by the eight-byte
/// dictionary identifier, for a dictionary-encoded field.
pub open spec fn field_header_bytes(field: FieldV, ipc: IpcField) -> Seq<u8> {
    le32_bytes(field.name.len()) + field.name + match ipc.dictionary_id {
        Option::None => seq![0u8],
        Option::Some(id) => seq![1u8] + le64_bytes(id as nat),
    }
}

/// The concatenated field headers of a schema.
pub open spec fn fields_header_bytes(fields: Seq<FieldV>, mapping: Seq<IpcField>) -> Seq<u8>
    decreases fields.len(),
{
    if fields.len() == 0 {
        Seq::<u8>::empty()
    } else {
        fields_header_bytes(fields.drop_last(), mapping.drop_last()) + field_header_bytes(
            fields.last(),
            mapping.last(),
        )
    }
}

/// The schema message header: a schema tag byte, the field count, then each
/// field's header in order.
pub open spec fn schema_header_bytes(fields: Seq<FieldV>, mapping: Seq<IpcField>) -> Seq<u8> {
    seq![1u8] + le32_bytes(fields.len()) + fields_header_bytes(fields, mapping)
}

pub proof fn lemma_fields_header_len(fields: Seq<FieldV>, mapping: Seq<IpcField>)
    requires
        forall|i: int| 0 <= i < fields.len() ==> (#[trigger] fields[i].name).len() <= 0xFFFF,
    ensures
        fields_header_bytes(fields, mapping).len() <= fields.len() * 65548,
    decreases fields.len(),
{
    if fields.len() > 0 {
        lemma_fields_header_len(fields.drop_last(), mapping.drop_last());
        assert(field_header_bytes(fields.last(), mapping.last()).len() <= 65548);
        assert((fields.len() - 1) * 65548 + 65548 == fields.len() * 65548) by (nonlinear_arith);
    }
}

pub proof fn lemma_schema_header_len(fields: Seq<FieldV>, mapping: Seq<IpcField>)
    requires
        fields.len() <= 0x7FFF,
        forall|i: int| 0 <= i < fields.len() ==> (#[trigger] fields[i].name).len() <= 0xFFFF,
    ensures
        schema_header_bytes(fields, mapping).len() <= 0xFFFF_FF00,
{
    lemma_fields_header_len(fields, mapping);
    assert(fields.len() * 65548 <= 0x7FFF * 65548) by (nonlinear_arith)
        requires fields.len() <= 0x7FFF;
}

/// Serializes a schema and its dictionary mapping into the schema message
/// header.
pub fn schema_to_bytes(schema: &Schema, ipc_fields: &Vec<IpcField>) -> (r: Vec<u8>)
    requires
        schema.wf(),
        mapping_matches(schema@, ipc_fields@),
    ensures
        r@ == schema_header_bytes(schema@, ipc_fields@),
        r@.len() <= 0xFFFF_FF00,
{
    let mut r: Vec<u8> = Vec::new();
    r.push(1u8);
    crate::wire::push_le32(&mut r, schema.fields.len() as u32);
    let mut i: usize = 0;
    while i < schema.fields.len()
        invariant
            i <= schema.fields.len(),
            schema.wf(),
            mapping_matches(schema@, ipc_fields@),
            schema@.len() == schema.fields@.len(),
            ipc_fields@.len() == schema.fields@.len(),
            r@ == seq![1u8] + le32_bytes(schema@.len()) + fields_header_bytes(
                schema@.take(i as int),
                ipc_fields@.take(i as int),
            ),
        decreases schema.fields.len() - i,
    {
        let field = &schema.fields[i];
        crate::wire::push_le32(&mut r, field.name.len() as u32);
        crate::wire::push_bytes(&mut r, &field.name);
        match field.data_type {
            DataType::UInt64 => {
                r.push(0u8);
            },
            DataType::DictionaryBinary => {
                r.push(1u8);
                let id = match ipc_fields[i].dictionary_id {
                    Option::Some(id) => id,
                    Option::None => {
                        proof {
                            assert(false);
                        }
                        0
                    },
                };
                crate::wire::push_le64(&mut r, id);
            },
        }
        i = i + 1;
        proof {
            assert(schema@.take(i as int).drop_last() =~= schema@.take(i - 1));
            assert(ipc_fields@.take(i as int).drop_last() =~= ipc_fields@.take(i - 1));
            assert(schema@.take(i as int).last() == schema@[i - 1]);
            assert(ipc_fields@.take(i as int).last() == ipc_fields@[i - 1]);
            assert(r@ =~= seq![1u8] + le32_bytes(schema@.len()) + fields_header_bytes(
                schema@.take(i as int),
                ipc_fields@.take(i as int),
            ));
        }
    }
    proof {
        assert(schema@.take(schema@.len() as int) =~= schema@);
        assert(ipc_fields@.take(ipc_fields@.len() as int) =~= ipc_fields@);
        lemma_schema_header_len(schema@, ipc_fields@);
    }
    r
}

} // verus!
