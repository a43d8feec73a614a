//! The stream-wide laws: properties that relate several operations, stated
//! over the same spec functions the operations' contracts use, and proved
//! once and for all.

use vstd::prelude::*;

use crate::chunk::{dictionary_values, ColumnV};
use crate::dict::{dict_decision, dict_step, DictAction, TrackerV};
use crate::encode::{dict_message, encode_dicts, encode_one, encode_upto};
use crate::fields::IpcField;
use crate::stream::StreamWriter;
use crate::wire::{
    end_marker_bytes, frame_bytes, frame_len, framed_total_len, lemma_frame_bytes_len,
    lemma_stream_bytes_len, stream_bytes, WireMessage,
};

verus! {

/// A stream that was started and immediately finished holds exactly one
/// framed message — the schema message — followed by the four-byte zero
/// end-of-stream marker, and nothing else.
pub proof fn lemma_start_then_finish(w: StreamWriter, header: Seq<u8>)
    requires
        w.wf(),
        w.state is Finished,
        w.history@ == seq![WireMessage { header, body: Seq::<u8>::empty() }],
    ensures
        w.writer@ == w.base@ + frame_bytes(header, Seq::<u8>::empty()) + end_marker_bytes(),
        w.bytes_written == frame_len(header, Seq::<u8>::empty()) + 4,
{
    let msg = WireMessage { header, body: Seq::<u8>::empty() };
    let h = w.history@;
    assert(h.len() == 1);
    assert(stream_bytes(h) == stream_bytes(h.drop_last()) + frame_bytes(
        h.last().header,
        h.last().body,
    ));
    assert(h.drop_last() =~= Seq::<WireMessage>::empty());
    assert(h.last() == msg);
    assert(stream_bytes(h.drop_last()) == Seq::<u8>::empty());
    assert(Seq::<u8>::empty() + frame_bytes(header, Seq::<u8>::empty()) =~= frame_bytes(
        header,
        Seq::<u8>::empty(),
    ));
    lemma_frame_bytes_len(header, Seq::<u8>::empty());
}

/// Dictionary idempotence: a dictionary identifier never seen is emitted
/// exactly once — fresh, not as a replacement — and a second write of the
/// byte-identical values for that identifier emits nothing and records
/// nothing new.
pub proof fn lemma_dictionary_idempotent(
    dictionaries: Map<u64, Seq<Seq<u8>>>,
    cannot_replace: bool,
    values: Seq<Seq<u8>>,
    keys: Seq<u32>,
    id: u64,
)
    requires
        !dictionaries.contains_key(id),
    ensures
        ({
            let c = ColumnV::Dictionary { values, keys };
            let f = IpcField { dictionary_id: Option::Some(id) };
            let first = encode_one(dictionaries, cannot_replace, c, f);
            let second = encode_one(first.dictionaries, cannot_replace, c, f);
            &&& first.accepted
            &&& first.messages == seq![dict_message(id, false, values)]
            &&& first.dictionaries == dictionaries.insert(id, values)
            &&& second.accepted
            &&& second.messages == Seq::<WireMessage>::empty()
            &&& second.dictionaries == first.dictionaries
        }),
{
}

/// Writing a chunk whose every dictionary the tracker already holds with
/// byte-identical values emits no dictionary message at all and records
/// nothing new: across two writes of identical dictionaries, only the
/// first write emits them.
pub proof fn lemma_unchanged_dictionaries_skip(
    dictionaries: Map<u64, Seq<Seq<u8>>>,
    cannot_replace: bool,
    cols: Seq<ColumnV>,
    mapping: Seq<IpcField>,
    i: int,
)
    requires
        0 <= i <= cols.len(),
        cols.len() == mapping.len(),
        forall|k: int|
            0 <= k < cols.len() ==> ((#[trigger] cols[k]) is Dictionary
                <==> mapping[k].dictionary_id is Some),
        forall|k: int|
            0 <= k < cols.len() && (#[trigger] cols[k]) is Dictionary
                ==> dictionaries.contains_key(mapping[k].dictionary_id.unwrap())
                && dictionaries[mapping[k].dictionary_id.unwrap()] == dictionary_values(cols[k]),
    ensures
        ({
            let outcome = encode_upto(dictionaries, cannot_replace, cols, mapping, i);
            &&& outcome.accepted
            &&& outcome.dictionaries == dictionaries
            &&& outcome.messages == Seq::<WireMessage>::empty()
        }),
    decreases i,
{
    if i > 0 {
        lemma_unchanged_dictionaries_skip(dictionaries, cannot_replace, cols, mapping, i - 1);
        let step = encode_one(dictionaries, cannot_replace, cols[i - 1], mapping[i - 1]);
        assert(step.messages == Seq::<WireMessage>::empty());
        assert(Seq::<WireMessage>::empty() + Seq::<WireMessage>::empty() =~= Seq::<
            WireMessage,
        >::empty());
    }
}

/// No two dictionary columns of the chunk share an identifier.
pub open spec fn distinct_dictionary_ids(cols: Seq<ColumnV>, mapping: Seq<IpcField>) -> bool {
    forall|k: int, l: int|
        0 <= k < l < cols.len() && (#[trigger] cols[k]) is Dictionary && (#[trigger] cols[l])
            is Dictionary ==> mapping[k].dictionary_id != mapping[l].dictionary_id
}

/// After an accepted write, the tracker holds, for every dictionary column
/// of the chunk, exactly the values that column carried.
pub proof fn lemma_accepted_write_records(
    dictionaries: Map<u64, Seq<Seq<u8>>>,
    cannot_replace: bool,
    cols: Seq<ColumnV>,
    mapping: Seq<IpcField>,
    i: int,
)
    requires
        0 <= i <= cols.len(),
        cols.len() == mapping.len(),
        forall|k: int|
            0 <= k < cols.len() ==> ((#[trigger] cols[k]) is Dictionary
                <==> mapping[k].dictionary_id is Some),
        distinct_dictionary_ids(cols, mapping),
        encode_upto(dictionaries, cannot_replace, cols, mapping, i).accepted,
    ensures
        forall|k: int|
            0 <= k < i && (#[trigger] cols[k]) is Dictionary ==> {
                let recorded = encode_upto(
                    dictionaries,
                    cannot_replace,
                    cols,
                    mapping,
                    i,
                ).dictionaries;
                recorded.contains_key(mapping[k].dictionary_id.unwrap())
                    && recorded[mapping[k].dictionary_id.unwrap()] == dictionary_values(cols[k])
            },
    decreases i,
{
    if i > 0 {
        lemma_accepted_write_records(dictionaries, cannot_replace, cols, mapping, i - 1);
        let prev = encode_upto(dictionaries, cannot_replace, cols, mapping, i - 1);
        let cur = encode_upto(dictionaries, cannot_replace, cols, mapping, i);
        assert forall|k: int| 0 <= k < i && (#[trigger] cols[k]) is Dictionary implies {
            cur.dictionaries.contains_key(mapping[k].dictionary_id.unwrap())
                && cur.dictionaries[mapping[k].dictionary_id.unwrap()] == dictionary_values(
                cols[k],
            )
        } by {
            if k < i - 1 && cols[i - 1] is Dictionary {
                assert(mapping[k].dictionary_id != mapping[i - 1].dictionary_id);
            }
        }
    }
}

/// Dictionary idempotence for whole chunks: writing the same chunk twice —
/// its dictionary columns carrying distinct identifiers — emits each
/// dictionary exactly once; the second write emits no dictionary message
/// and records nothing new.
pub proof fn lemma_chunk_dictionary_idempotent(
    dictionaries: Map<u64, Seq<Seq<u8>>>,
    cannot_replace: bool,
    cols: Seq<ColumnV>,
    mapping: Seq<IpcField>,
)
    requires
        cols.len() == mapping.len(),
        forall|k: int|
            0 <= k < cols.len() ==> ((#[trigger] cols[k]) is Dictionary
                <==> mapping[k].dictionary_id is Some),
        distinct_dictionary_ids(cols, mapping),
        encode_dicts(dictionaries, cannot_replace, cols, mapping).accepted,
    ensures
        ({
            let first = encode_dicts(dictionaries, cannot_replace, cols, mapping);
            let second = encode_dicts(first.dictionaries, cannot_replace, cols, mapping);
            &&& second.accepted
            &&& second.dictionaries == first.dictionaries
            &&& second.messages == Seq::<WireMessage>::empty()
        }),
{
    let first = encode_dicts(dictionaries, cannot_replace, cols, mapping);
    lemma_accepted_write_records(
        dictionaries,
        cannot_replace,
        cols,
        mapping,
        cols.len() as int,
    );
    lemma_unchanged_dictionaries_skip(
        first.dictionaries,
        cannot_replace,
        cols,
        mapping,
        cols.len() as int,
    );
}

/// Dictionary replacement: when the tracker allows replacement, changed
/// values for a known identifier are emitted exactly once more, marked as
/// a replacement, and the new values are recorded.
pub proof fn lemma_dictionary_replacement(
    dictionaries: Map<u64, Seq<Seq<u8>>>,
    values: Seq<Seq<u8>>,
    keys: Seq<u32>,
    id: u64,
)
    requires
        dictionaries.contains_key(id),
        dictionaries[id] != values,
    ensures
        ({
            let c = ColumnV::Dictionary { values, keys };
            let f = IpcField { dictionary_id: Option::Some(id) };
            let outcome = encode_one(dictionaries, false, c, f);
            &&& outcome.accepted
            &&& outcome.messages == seq![dict_message(id, true, values)]
            &&& outcome.messages[0].header[1] == 1u8
            &&& outcome.dictionaries == dictionaries.insert(id, values)
        }),
{
    let t = TrackerV { dictionaries, cannot_replace: false };
    assert(dict_decision(t, id, values) == DictAction::EmitReplacement);
    assert(dict_step(t, id, values) == dictionaries.insert(id, values));
}

/// Dictionary rejection: when the tracker forbids replacement, changed
/// values for a known identifier reject the column; nothing is emitted and
/// nothing is recorded.
pub proof fn lemma_dictionary_rejection(
    dictionaries: Map<u64, Seq<Seq<u8>>>,
    values: Seq<Seq<u8>>,
    keys: Seq<u32>,
    id: u64,
)
    requires
        dictionaries.contains_key(id),
        dictionaries[id] != values,
    ensures
        ({
            let c = ColumnV::Dictionary { values, keys };
            let f = IpcField { dictionary_id: Option::Some(id) };
            let outcome = encode_one(dictionaries, true, c, f);
            &&& !outcome.accepted
            &&& outcome.messages == Seq::<WireMessage>::empty()
            &&& outcome.dictionaries == dictionaries
        }),
{
}

/// Exact byte accounting: what `bytes_written` reports is the sum, over
/// every message framed so far, of 4 + 4 + the padded header length + the
/// padded body length, plus 4 once the stream is finished.
pub proof fn lemma_bytes_written_accounting(w: StreamWriter)
    requires
        w.wf(),
    ensures
        w.bytes_written as nat == framed_total_len(w.history@) + (if w.state is Finished {
            4nat
        } else {
            0nat
        }),
{
    lemma_stream_bytes_len(w.history@);
}

} // verus!
