//! Chunk encoding: turns one chunk into zero or more dictionary messages
//! followed by exactly one data message, consulting and updating the
//! dictionary tracker column by column. Dictionary messages for an
//! identifier always precede the data message that references it.

use vstd::prelude::*;

use crate::chunk::{chunk_rows, column_sections_fit, conforms, Chunk, Column, ColumnV};
use crate::dict::{dict_decision, dict_step, DictAction, DictionaryTracker, TrackerV};
use crate::error::StreamError;
use crate::fields::IpcField;
use crate::wire::{le32_bytes, le64_bytes, EncodedData, WireMessage};

verus! {

/// The header of a dictionary message: a dictionary tag byte, a replacement
/// flag, the eight-byte identifier and the value count.
pub open spec fn dict_header_bytes(id: u64, replacement: bool, count: nat) -> Seq<u8> {
    seq![2u8, if replacement { 1u8 } else { 0u8 }] + le64_bytes(id as nat) + le32_bytes(count)
}

/// The body of a dictionary message: each value length-prefixed, in order.
pub open spec fn dict_body_bytes(values: Seq<Seq<u8>>) -> Seq<u8>
    decreases values.len(),
{
    if values.len() == 0 {
        Seq::<u8>::empty()
    } else {
        dict_body_bytes(values.drop_last()) + le32_bytes(values.last().len()) + values.last()
    }
}

/// The dictionary message for `id` carrying `values`.
pub open spec fn dict_message(id: u64, replacement: bool, values: Seq<Seq<u8>>) -> WireMessage {
    WireMessage { header: dict_header_bytes(id, replacement, values.len()), body: dict_body_bytes(values) }
}

/// The header of a data message: a data tag byte, the row count and the
/// column count.
pub open spec fn data_header_bytes(rows: nat, columns: nat) -> Seq<u8> {
    seq![3u8] + le32_bytes(rows) + le32_bytes(columns)
}

/// The body bytes of one column: plain values as eight-byte little-endian
/// integers, dictionary codes as four-byte little-endian integers.
pub open spec fn column_body_bytes(c: ColumnV) -> Seq<u8> {
    match c {
        ColumnV::Primitive(values) => prim_body_bytes(values),
        ColumnV::Dictionary { keys, .. } => keys_body_bytes(keys),
    }
}

pub open spec fn prim_body_bytes(values: Seq<u64>) -> Seq<u8>
    decreases values.len(),
{
    if values.len() == 0 {
        Seq::<u8>::empty()
    } else {
        prim_body_bytes(values.drop_last()) + le64_bytes(values.last() as nat)
    }
}

pub open spec fn keys_body_bytes(keys: Seq<u32>) -> Seq<u8>
    decreases keys.len(),
{
    if keys.len() == 0 {
        Seq::<u8>::empty()
    } else {
        keys_body_bytes(keys.drop_last()) + le32_bytes(keys.last() as nat)
    }
}

/// The body of a data message: the columns' bodies in order.
pub open spec fn data_body_bytes(cols: Seq<ColumnV>) -> Seq<u8>
    decreases cols.len(),
{
    if cols.len() == 0 {
        Seq::<u8>::empty()
    } else {
        data_body_bytes(cols.drop_last()) + column_body_bytes(cols.last())
    }
}

/// The data message of a chunk.
pub open spec fn data_message(cols: Seq<ColumnV>) -> WireMessage {
    WireMessage { header: data_header_bytes(chunk_rows(cols), cols.len()), body: data_body_bytes(cols) }
}

/// What encoding a chunk's dictionary columns yields: whether every column
/// was accepted, the tracker's dictionaries afterwards, and the dictionary
/// messages to put on the wire, in column order. On a rejection the
/// dictionaries recorded before the rejecting column are kept and no
/// further column is processed.
pub ghost struct EncodeOutcome {
    pub accepted: bool,
    pub dictionaries: Map<u64, Seq<Seq<u8>>>,
    pub messages: Seq<WireMessage>,
}

/// The outcome of one column: plain columns emit nothing; a dictionary
/// column follows the tracker's decision.
pub open spec fn encode_one(
    dictionaries: Map<u64, Seq<Seq<u8>>>,
    cannot_replace: bool,
    c: ColumnV,
    f: IpcField,
) -> EncodeOutcome {
    match c {
        ColumnV::Primitive(_) => EncodeOutcome {
            accepted: true,
            dictionaries,
            messages: Seq::<WireMessage>::empty(),
        },
        ColumnV::Dictionary { values, .. } => match f.dictionary_id {
            Option::None => EncodeOutcome {
                accepted: true,
                dictionaries,
                messages: Seq::<WireMessage>::empty(),
            },
            Option::Some(id) => {
                let t = TrackerV { dictionaries, cannot_replace };
                match dict_decision(t, id, values) {
                    DictAction::Skip => EncodeOutcome {
                        accepted: true,
                        dictionaries,
                        messages: Seq::<WireMessage>::empty(),
                    },
                    DictAction::EmitFresh => EncodeOutcome {
                        accepted: true,
                        dictionaries: dict_step(t, id, values),
                        messages: seq![dict_message(id, false, values)],
                    },
                    DictAction::EmitReplacement => EncodeOutcome {
                        accepted: true,
                        dictionaries: dict_step(t, id, values),
                        messages: seq![dict_message(id, true, values)],
                    },
                    DictAction::Reject => EncodeOutcome {
                        accepted: false,
                        dictionaries,
                        messages: Seq::<WireMessage>::empty(),
                    },
                }
            },
        },
    }
}

/// The outcome of the first `i` columns, threading the tracker's
/// dictionaries through them in order. Once a column is rejected the
/// outcome stays rejected and nothing further is recorded or emitted.
pub open spec fn encode_upto(
    dictionaries: Map<u64, Seq<Seq<u8>>>,
    cannot_replace: bool,
    cols: Seq<ColumnV>,
    mapping: Seq<IpcField>,
    i: int,
) -> EncodeOutcome
    decreases i,
{
    if i <= 0 {
        EncodeOutcome { accepted: true, dictionaries, messages: Seq::<WireMessage>::empty() }
    } else {
        let prev = encode_upto(dictionaries, cannot_replace, cols, mapping, i - 1);
        if !prev.accepted {
            prev
        } else {
            let step = encode_one(prev.dictionaries, cannot_replace, cols[i - 1], mapping[i - 1]);
            EncodeOutcome {
                accepted: step.accepted,
                dictionaries: step.dictionaries,
                messages: prev.messages + step.messages,
            }
        }
    }
}

/// The outcome of a whole chunk: what encoding every column against the
/// tracker's dictionaries yields.
pub open spec fn encode_dicts(
    dictionaries: Map<u64, Seq<Seq<u8>>>,
    cannot_replace: bool,
    cols: Seq<ColumnV>,
    mapping: Seq<IpcField>,
) -> EncodeOutcome {
    encode_upto(dictionaries, cannot_replace, cols, mapping, cols.len() as int)
}

/// A rejected prefix absorbs the rest of the chunk: every longer prefix has
/// the same rejected outcome.
pub proof fn lemma_encode_upto_reject(
    dictionaries: Map<u64, Seq<Seq<u8>>>,
    cannot_replace: bool,
    cols: Seq<ColumnV>,
    mapping: Seq<IpcField>,
    i: int,
    j: int,
)
    requires
        0 <= i <= j,
        !encode_upto(dictionaries, cannot_replace, cols, mapping, i).accepted,
    ensures
        encode_upto(dictionaries, cannot_replace, cols, mapping, j) == encode_upto(
            dictionaries,
            cannot_replace,
            cols,
            mapping,
            i,
        ),
    decreases j - i,
{
    if j > i {
        lemma_encode_upto_reject(dictionaries, cannot_replace, cols, mapping, i, j - 1);
    }
}

/// Builds the body of a dictionary message: every value length-prefixed, in
/// order.
fn encode_dict_body(values: &Vec<Vec<u8>>) -> (r: Vec<u8>)
    requires
        forall|j: int| 0 <= j < values@.len() ==> (#[trigger] values.deep_view()[j]).len()
            <= 0xFFFF_FFFF,
    ensures
        r@ == dict_body_bytes(values.deep_view()),
{
    let mut r: Vec<u8> = Vec::new();
    let mut i: usize = 0;
    while i < values.len()
        invariant
            i <= values.len(),
            values.deep_view().len() == values@.len(),
            forall|j: int| 0 <= j < values@.len() ==> (#[trigger] values.deep_view()[j]).len()
                <= 0xFFFF_FFFF,
            r@ == dict_body_bytes(values.deep_view().take(i as int)),
        decreases values.len() - i,
    {
        proof {
            assert(values.deep_view()[i as int] =~= values@[i as int]@);
        }
        crate::wire::push_le32(&mut r, values[i].len() as u32);
        crate::wire::push_bytes(&mut r, &values[i]);
        i = i + 1;
        proof {
            let dv = values.deep_view();
            assert(dv.take(i as int).drop_last() =~= dv.take(i - 1));
            assert(dv.take(i as int).last() == dv[i - 1]);
            assert(r@ =~= dict_body_bytes(dv.take(i as int)));
        }
    }
    proof {
        assert(values.deep_view().take(values@.len() as int) =~= values.deep_view());
    }
    r
}

/// Builds the dictionary message for `id` carrying `values`, marked as a
/// replacement or not.
fn make_dict_message(id: u64, replacement: bool, values: &Vec<Vec<u8>>) -> (r: EncodedData)
    requires
        values@.len() <= 0xFFFF_FFFF,
        forall|j: int| 0 <= j < values@.len() ==> (#[trigger] values.deep_view()[j]).len()
            <= 0xFFFF_FFFF,
    ensures
        r@ == dict_message(id, replacement, values.deep_view()),
        r.ipc_message@.len() == 14,
{
    let mut header: Vec<u8> = Vec::new();
    header.push(2u8);
    header.push(if replacement { 1u8 } else { 0u8 });
    crate::wire::push_le64(&mut header, id);
    crate::wire::push_le32(&mut header, values.len() as u32);
    let body = encode_dict_body(values);
    proof {
        assert(header@ =~= dict_header_bytes(id, replacement, values.deep_view().len()));
    }
    EncodedData { ipc_message: header, arrow_data: body }
}

/// Builds the data message of a chunk: its header carries the row and
/// column counts, its body the columns' values in order.
fn make_data_message(chunk: &Chunk) -> (r: EncodedData)
    requires
        chunk@.len() <= 0xFFFF_FFFF,
        chunk_rows(chunk@) <= 0xFFFF_FFFF,
    ensures
        r@ == data_message(chunk@),
        r.ipc_message@.len() == 9,
{
    let mut header: Vec<u8> = Vec::new();
    header.push(3u8);
    crate::wire::push_le32(&mut header, chunk.len() as u32);
    crate::wire::push_le32(&mut header, chunk.columns.len() as u32);
    let mut body: Vec<u8> = Vec::new();
    let mut i: usize = 0;
    while i < chunk.columns.len()
        invariant
            i <= chunk.columns.len(),
            chunk@.len() == chunk.columns@.len(),
            body@ == data_body_bytes(chunk@.take(i as int)),
        decreases chunk.columns.len() - i,
    {
        proof {
            assert(chunk@[i as int] == chunk.columns@[i as int]@);
        }
        match &chunk.columns[i] {
            Column::Primitive(values) => {
                let mut j: usize = 0;
                while j < values.len()
                    invariant
                        j <= values.len(),
                        i < chunk.columns.len(),
                        chunk@.len() == chunk.columns@.len(),
                        chunk@[i as int] == ColumnV::Primitive(values@),
                        body@ == data_body_bytes(chunk@.take(i as int)) + prim_body_bytes(
                            values@.take(j as int),
                        ),
                    decreases values.len() - j,
                {
                    crate::wire::push_le64(&mut body, values[j]);
                    j = j + 1;
                    proof {
                        assert(values@.take(j as int).drop_last() =~= values@.take(j - 1));
                        assert(values@.take(j as int).last() == values@[j - 1]);
                        assert(body@ =~= data_body_bytes(chunk@.take(i as int)) + prim_body_bytes(
                            values@.take(j as int),
                        ));
                    }
                }
                proof {
                    assert(values@.take(values@.len() as int) =~= values@);
                }
            },
            Column::Dictionary { values, keys } => {
                let mut j: usize = 0;
                while j < keys.len()
                    invariant
                        j <= keys.len(),
                        i < chunk.columns.len(),
                        chunk@.len() == chunk.columns@.len(),
                        chunk@[i as int] == (ColumnV::Dictionary {
                            values: values.deep_view(),
                            keys: keys@,
                        }),
                        body@ == data_body_bytes(chunk@.take(i as int)) + keys_body_bytes(
                            keys@.take(j as int),
                        ),
                    decreases keys.len() - j,
                {
                    crate::wire::push_le32(&mut body, keys[j]);
                    j = j + 1;
                    proof {
                        assert(keys@.take(j as int).drop_last() =~= keys@.take(j - 1));
                        assert(keys@.take(j as int).last() == keys@[j - 1]);
                        assert(body@ =~= data_body_bytes(chunk@.take(i as int)) + keys_body_bytes(
                            keys@.take(j as int),
                        ));
                    }
                }
                proof {
                    assert(keys@.take(keys@.len() as int) =~= keys@);
                }
            },
        }
        i = i + 1;
        proof {
            assert(chunk@.take(i as int).drop_last() =~= chunk@.take(i - 1));
            assert(chunk@.take(i as int).last() == chunk@[i - 1]);
            assert(body@ =~= data_body_bytes(chunk@.take(i as int)));
        }
    }
    proof {
        assert(chunk@.take(chunk@.len() as int) =~= chunk@);
        assert(header@ =~= data_header_bytes(chunk_rows(chunk@), chunk@.len()));
    }
    EncodedData { ipc_message: header, arrow_data: body }
}



/// Processes one column against the tracker: decides, records, and appends
/// the column's dictionary message (if any) to `dicts`. Returns whether the
/// column was accepted; a rejected column appends nothing.
fn encode_column(
    tracker: &mut DictionaryTracker,
    dicts: &mut Vec<EncodedData>,
    column: &Column,
    field: &IpcField,
) -> (ok: bool)
    requires
        old(tracker).wf(),
        (column@ is Dictionary) <==> field.dictionary_id is Some,
        column_sections_fit(column@),
    ensures
        final(tracker).wf(),
        final(tracker)@.cannot_replace == old(tracker)@.cannot_replace,
        ({
            let step = encode_one(
                old(tracker)@.dictionaries,
                old(tracker)@.cannot_replace,
                column@,
                *field,
            );
            &&& final(tracker)@.dictionaries == step.dictionaries
            &&& ok == step.accepted
            &&& (ok ==> final(dicts)@.map_values(|e: EncodedData| e@) == old(dicts)@.map_values(
                |e: EncodedData| e@,
            ) + step.messages)
            &&& (!ok ==> final(dicts)@ == old(dicts)@)
        }),
{
    match column {
        Column::Primitive(_) => {
            proof {
                assert(dicts@.map_values(|e: EncodedData| e@) + Seq::<WireMessage>::empty()
                    =~= dicts@.map_values(|e: EncodedData| e@));
            }
            true
        },
        Column::Dictionary { values, keys } => {
            let id = match field.dictionary_id {
                Option::Some(id) => id,
                Option::None => {
                    proof {
                        assert(false);
                    }
                    0
                },
            };
            let ghost msgs0 = dicts@.map_values(|e: EncodedData| e@);
            let action = tracker.should_emit(id, values);
            match action {
                DictAction::Skip => {
                    proof {
                        assert(msgs0 + Seq::<WireMessage>::empty() =~= msgs0);
                    }
                    true
                },
                DictAction::EmitFresh => {
                    let message = make_dict_message(id, false, values);
                    dicts.push(message);
                    proof {
                        assert(dicts@.map_values(|e: EncodedData| e@) =~= msgs0 + seq![
                            dict_message(id, false, values.deep_view()),
                        ]);
                    }
                    true
                },
                DictAction::EmitReplacement => {
                    let message = make_dict_message(id, true, values);
                    dicts.push(message);
                    proof {
                        assert(dicts@.map_values(|e: EncodedData| e@) =~= msgs0 + seq![
                            dict_message(id, true, values.deep_view()),
                        ]);
                    }
                    true
                },
                DictAction::Reject => false,
            }
        },
    }
}

/// Processes column `i` of the chunk, carrying the encoding outcome one
/// column forward: the tracker and the collected dictionary messages always
/// match the outcome of the first `i + 1` columns afterwards.
fn encode_column_at(
    tracker: &mut DictionaryTracker,
    dicts: &mut Vec<EncodedData>,
    column: &Column,
    field: &IpcField,
    Ghost(dict0): Ghost<Map<u64, Seq<Seq<u8>>>>,
    Ghost(cols): Ghost<Seq<ColumnV>>,
    Ghost(mapping): Ghost<Seq<IpcField>>,
    Ghost(i): Ghost<int>,
) -> (ok: bool)
    requires
        old(tracker).wf(),
        0 <= i < cols.len(),
        cols.len() == mapping.len(),
        column@ == cols[i],
        *field == mapping[i],
        (column@ is Dictionary) <==> field.dictionary_id is Some,
        column_sections_fit(column@),
        encode_upto(dict0, old(tracker)@.cannot_replace, cols, mapping, i).accepted,
        old(tracker)@.dictionaries == encode_upto(
            dict0,
            old(tracker)@.cannot_replace,
            cols,
            mapping,
            i,
        ).dictionaries,
        old(dicts)@.map_values(|e: EncodedData| e@) == encode_upto(
            dict0,
            old(tracker)@.cannot_replace,
            cols,
            mapping,
            i,
        ).messages,
    ensures
        final(tracker).wf(),
        final(tracker)@.cannot_replace == old(tracker)@.cannot_replace,
        ok == encode_upto(dict0, old(tracker)@.cannot_replace, cols, mapping, i + 1).accepted,
        final(tracker)@.dictionaries == encode_upto(
            dict0,
            old(tracker)@.cannot_replace,
            cols,
            mapping,
            i + 1,
        ).dictionaries,
        ok ==> final(dicts)@.map_values(|e: EncodedData| e@) == encode_upto(
            dict0,
            old(tracker)@.cannot_replace,
            cols,
            mapping,
            i + 1,
        ).messages,
        !ok ==> final(dicts)@ == old(dicts)@,
{
    let ghost cr = old(tracker)@.cannot_replace;
    let ghost prev = encode_upto(dict0, cr, cols, mapping, i);
    let ghost step = encode_one(prev.dictionaries, cr, cols[i], mapping[i]);
    let ok = encode_column(tracker, dicts, column, field);
    proof {
        assert(encode_upto(dict0, cr, cols, mapping, i + 1) == (EncodeOutcome {
            accepted: step.accepted,
            dictionaries: step.dictionaries,
            messages: prev.messages + step.messages,
        }));
    }
    ok
}


/// Every dictionary message header has the same fixed length.
pub proof fn lemma_encode_upto_header_len(
    dictionaries: Map<u64, Seq<Seq<u8>>>,
    cannot_replace: bool,
    cols: Seq<ColumnV>,
    mapping: Seq<IpcField>,
    i: int,
)
    ensures
        forall|k: int|
            0 <= k < encode_upto(dictionaries, cannot_replace, cols, mapping, i).messages.len()
                ==> (#[trigger] encode_upto(
                dictionaries,
                cannot_replace,
                cols,
                mapping,
                i,
            ).messages[k]).header.len() == 14,
    decreases i,
{
    if i > 0 {
        lemma_encode_upto_header_len(dictionaries, cannot_replace, cols, mapping, i - 1);
        let prev = encode_upto(dictionaries, cannot_replace, cols, mapping, i - 1);
        let cur = encode_upto(dictionaries, cannot_replace, cols, mapping, i);
        if prev.accepted {
            let step = encode_one(prev.dictionaries, cannot_replace, cols[i - 1], mapping[i - 1]);
            assert(cur.messages == prev.messages + step.messages);
            assert forall|k: int| 0 <= k < cur.messages.len() implies (#[trigger] cur.messages[k]).header.len()
                == 14 by {
                if k < prev.messages.len() {
                    assert(cur.messages[k] == prev.messages[k]);
                } else {
                    assert(cur.messages[k] == step.messages[k - prev.messages.len()]);
                }
            }
        }
    }
}

/// Runs the tracker over every column in order, collecting the dictionary
/// messages to emit. Returns whether all columns were accepted; on a
/// rejection the dictionaries recorded before the rejecting column stay
/// recorded and the collected messages are not to be written.
#[verifier::rlimit(100)]
fn encode_all_columns(
    chunk: &Chunk,
    mapping: &Vec<IpcField>,
    tracker: &mut DictionaryTracker,
    dicts: &mut Vec<EncodedData>,
) -> (ok: bool)
    requires
        old(tracker).wf(),
        chunk@.len() == mapping@.len(),
        forall|k: int|
            0 <= k < chunk@.len() ==> ((#[trigger] chunk@[k]) is Dictionary
                <==> mapping@[k].dictionary_id is Some),
        forall|k: int| 0 <= k < chunk@.len() ==> column_sections_fit(#[trigger] chunk@[k]),
        old(dicts)@.len() == 0,
    ensures
        final(tracker).wf(),
        final(tracker)@.cannot_replace == old(tracker)@.cannot_replace,
        ({
            let outcome = encode_dicts(
                old(tracker)@.dictionaries,
                old(tracker)@.cannot_replace,
                chunk@,
                mapping@,
            );
            &&& ok == outcome.accepted
            &&& final(tracker)@.dictionaries == outcome.dictionaries
            &&& (ok ==> final(dicts)@.map_values(|e: EncodedData| e@) == outcome.messages)
        }),
{
    let ghost dict0 = old(tracker)@.dictionaries;
    let ghost cr = old(tracker)@.cannot_replace;
    let ghost n = chunk@.len() as int;
    let mut i: usize = 0;
    let mut rejected: bool = false;
    proof {
        assert(dicts@.map_values(|e: EncodedData| e@) =~= Seq::<WireMessage>::empty());
    }
    while i < chunk.columns.len() && !rejected
        invariant
            i <= chunk.columns.len(),
            n == chunk@.len(),
            chunk@.len() == chunk.columns@.len(),
            mapping@.len() == chunk.columns@.len(),
            forall|k: int|
                0 <= k < chunk@.len() ==> ((#[trigger] chunk@[k]) is Dictionary
                    <==> mapping@[k].dictionary_id is Some),
            forall|k: int| 0 <= k < chunk@.len() ==> column_sections_fit(#[trigger] chunk@[k]),
            tracker.wf(),
            tracker@.cannot_replace == cr,
            !rejected ==> encode_upto(dict0, cr, chunk@, mapping@, i as int).accepted,
            !rejected ==> tracker@.dictionaries == encode_upto(
                dict0,
                cr,
                chunk@,
                mapping@,
                i as int,
            ).dictionaries,
            !rejected ==> dicts@.map_values(|e: EncodedData| e@) == encode_upto(
                dict0,
                cr,
                chunk@,
                mapping@,
                i as int,
            ).messages,
            rejected ==> !encode_upto(dict0, cr, chunk@, mapping@, n).accepted,
            rejected ==> tracker@.dictionaries == encode_upto(
                dict0,
                cr,
                chunk@,
                mapping@,
                n,
            ).dictionaries,
        decreases chunk.columns.len() - i, (if rejected { 0int } else { 1int }),
    {
        proof {
            assert(chunk@[i as int] == chunk.columns@[i as int]@);
        }
        let ok = encode_column_at(
            tracker,
            dicts,
            &chunk.columns[i],
            &mapping[i],
            Ghost(dict0),
            Ghost(chunk@),
            Ghost(mapping@),
            Ghost(i as int),
        );
        if !ok {
            proof {
                lemma_encode_upto_reject(dict0, cr, chunk@, mapping@, i + 1, n);
            }
            rejected = true;
        } else {
            i = i + 1;
        }
    }
    !rejected
}

#[verifier::rlimit(100)]
pub fn encode_chunk(
    chunk: &Chunk,
    mapping: &Vec<IpcField>,
    tracker: &mut DictionaryTracker,
) -> (r: Result<(Vec<EncodedData>, EncodedData), StreamError>)
    requires
        old(tracker).wf(),
        conforms(chunk@, mapping@),
    ensures
        final(tracker).wf(),
        final(tracker)@.cannot_replace == old(tracker)@.cannot_replace,
        ({
            let outcome = encode_dicts(
                old(tracker)@.dictionaries,
                old(tracker)@.cannot_replace,
                chunk@,
                mapping@,
            );
            &&& final(tracker)@.dictionaries == outcome.dictionaries
            &&& outcome.accepted <==> r is Ok
            &&& match r {
                Result::Ok((dicts, data)) => {
                    &&& dicts@.map_values(|e: EncodedData| e@) == outcome.messages
                    &&& data@ == data_message(chunk@)
                },
                Result::Err(e) => e == StreamError::DictionaryReplacementRejected,
            }
        }),
{
    let mut dicts: Vec<EncodedData> = Vec::new();
    let ok = encode_all_columns(chunk, mapping, tracker, &mut dicts);
    if !ok {
        return Result::Err(StreamError::DictionaryReplacementRejected);
    }
    let data = make_data_message(chunk);
    Result::Ok((dicts, data))
}

} // verus!
