//! The stream writer: the state machine that owns the sink, the dictionary
//! tracker and the field-to-dictionary mapping, and enforces the ordering
//! invariants of the wire protocol — one schema message first, dictionary
//! messages before the data messages that reference them, and a terminal
//! marker after which nothing more may be written.

use vstd::prelude::*;

use crate::chunk::{conforms, Chunk};
use crate::dict::DictionaryTracker;
use crate::encode::{data_message, encode_chunk, encode_dicts};
use crate::error::StreamError;
use crate::fields::{
    default_ipc_fields, default_mapping_from, lemma_default_mapping_matches, mapping_matches,
    schema_header_bytes, schema_to_bytes, IpcField, Schema,
};
use crate::wire::{
    end_marker_bytes, frame_bytes, frame_len, lemma_frame_bytes_len, lemma_stream_bytes_concat,
    lemma_stream_bytes_push, stream_bytes, write_end_marker, write_message, write_messages,
    EncodedData, WireMessage,
};

verus! {

/// Configuration handed through to the chunk encoder. The column encoder
/// here always writes bodies uncompressed; the toggle is carried for the
/// encoder interface and does not change the framing.
#[derive(Clone, Copy, PartialEq, Eq, Structural, Debug)]
pub struct WriteOptions {
    pub compression: bool,
}

/// Where a stream stands in its life cycle. `Finished` is terminal: no
/// transition leads back out of it.
#[derive(Clone, Copy, PartialEq, Eq, Structural, Debug)]
pub enum StreamState {
    NotStarted,
    Started,
    Finished,
}

/// Writes a columnar stream: one schema message, then per chunk its
/// dictionary messages followed by its data message, and finally the
/// end-of-stream marker. Owns the sink exclusively until `into_inner`
/// returns it.
pub struct StreamWriter {
    /// The sink; every framed byte is appended here.
    pub writer: Vec<u8>,
    /// Configuration passed through to the chunk encoder.
    pub write_options: WriteOptions,
    /// The state machine guarding every entry point.
    pub state: StreamState,
    /// Remembers which dictionaries have been written.
    pub dictionary_tracker: DictionaryTracker,
    /// The mapping fixed by `start`; `Some` exactly once started.
    pub ipc_fields: Option<Vec<IpcField>>,
    /// Bytes appended to the sink by this writer so far.
    pub bytes_written: usize,
    /// What the sink held before this writer touched it.
    pub base: Ghost<Seq<u8>>,
    /// Every message framed so far, in wire order.
    pub history: Ghost<Seq<WireMessage>>,
}

impl StreamWriter {
    /// The writer's invariant: the sink holds exactly the initial bytes,
    /// then the framed messages in history order, then the terminal marker
    /// once finished; the byte counter counts exactly what this writer
    /// appended.
    pub open spec fn wf(&self) -> bool {
        &&& self.dictionary_tracker.wf()
        &&& self.writer@ == self.base@ + stream_bytes(self.history@) + (if self.state
            is Finished {
            end_marker_bytes()
        } else {
            Seq::<u8>::empty()
        })
        &&& self.bytes_written as nat == stream_bytes(self.history@).len() + (if self.state
            is Finished {
            4nat
        } else {
            0nat
        })
        &&& (self.state is NotStarted <==> self.ipc_fields is None)
        &&& (self.state is NotStarted ==> self.history@.len() == 0)
    }

    /// The mapping fixed at `start`, as a mathematical value.
    pub open spec fn fixed_mapping(&self) -> Seq<IpcField>
        recommends
            self.ipc_fields is Some,
    {
        self.ipc_fields.unwrap()@
    }

    /// A fresh writer owning `writer` as its sink; its tracker allows
    /// dictionary replacement.
    pub fn new(writer: Vec<u8>, write_options: WriteOptions) -> (r: StreamWriter)
        ensures
            r.wf(),
            r.state is NotStarted,
            r.writer@ == writer@,
            r.base@ == writer@,
            r.history@ == Seq::<WireMessage>::empty(),
            r.bytes_written == 0,
            r.dictionary_tracker@.dictionaries == Map::<u64, Seq<Seq<u8>>>::empty(),
            r.dictionary_tracker@.cannot_replace == false,
            r.write_options == write_options,
    {
        StreamWriter::new_with_dictionary_policy(writer, write_options, false)
    }

    /// A fresh writer whose tracker rejects changed dictionaries when
    /// `cannot_replace` is set: for readers that assume dictionaries never
    /// change mid-stream.
    pub fn new_with_dictionary_policy(
        writer: Vec<u8>,
        write_options: WriteOptions,
        cannot_replace: bool,
    ) -> (r: StreamWriter)
        ensures
            r.wf(),
            r.state is NotStarted,
            r.writer@ == writer@,
            r.base@ == writer@,
            r.history@ == Seq::<WireMessage>::empty(),
            r.bytes_written == 0,
            r.dictionary_tracker@.dictionaries == Map::<u64, Seq<Seq<u8>>>::empty(),
            r.dictionary_tracker@.cannot_replace == cannot_replace,
            r.write_options == write_options,
    {
        let ghost initial = writer@;
        let r = StreamWriter {
            writer,
            write_options,
            state: StreamState::NotStarted,
            dictionary_tracker: DictionaryTracker::new(cannot_replace),
            ipc_fields: None,
            bytes_written: 0,
            base: Ghost(initial),
            history: Ghost(Seq::<WireMessage>::empty()),
        };
        proof {
            assert(r.writer@ =~= r.base@ + stream_bytes(r.history@) + Seq::<u8>::empty());
        }
        r
    }

    /// Starts the stream: fixes the field-to-dictionary mapping (the
    /// caller's, or the default derived from the schema) and frames the
    /// schema message. Exactly one schema message opens a stream: starting
    /// twice fails and writes nothing.
    pub fn start(&mut self, schema: &Schema, ipc_fields: Option<Vec<IpcField>>) -> (r: Result<
        (),
        StreamError,
    >)
        requires
            old(self).wf(),
            schema.wf(),
            ipc_fields is Some ==> mapping_matches(schema@, ipc_fields.unwrap()@),
        ensures
            final(self).wf(),
            final(self).write_options == old(self).write_options,
            final(self).base@ == old(self).base@,
            final(self).dictionary_tracker == old(self).dictionary_tracker,
            !(old(self).state is NotStarted) ==> r == Result::<(), StreamError>::Err(
                StreamError::AlreadyStarted,
            ) && *final(self) == *old(self),
            old(self).state is NotStarted ==> ({
                let mapping = match ipc_fields {
                    Option::Some(m) => m@,
                    Option::None => default_mapping_from(schema@, 0),
                };
                let header = schema_header_bytes(schema@, mapping);
                &&& r is Ok
                &&& final(self).state is Started
                &&& final(self).ipc_fields is Some
                &&& final(self).fixed_mapping() == mapping
                &&& final(self).history@ == old(self).history@.push(
                    WireMessage { header, body: Seq::<u8>::empty() },
                )
                &&& final(self).writer@ == old(self).writer@ + frame_bytes(
                    header,
                    Seq::<u8>::empty(),
                )
                &&& final(self).bytes_written == old(self).bytes_written + frame_len(
                    header,
                    Seq::<u8>::empty(),
                )
            }),
    {
        match self.state {
            StreamState::NotStarted => {},
            _ => {
                return Result::Err(StreamError::AlreadyStarted);
            },
        }
        let fields = match ipc_fields {
            Option::Some(f) => f,
            Option::None => {
                proof {
                    lemma_default_mapping_matches(schema@, 0);
                }
                default_ipc_fields(&schema.fields)
            },
        };
        let header = schema_to_bytes(schema, &fields);
        let message = EncodedData { ipc_message: header, arrow_data: Vec::new() };
        let (metadata_len, body_len) = write_message(&mut self.writer, &message);
        let total = self.writer.len();
        proof {
            lemma_frame_bytes_len(message@.header, message@.body);
            lemma_stream_bytes_push(self.history@, message@);
            assert(self.bytes_written + metadata_len + body_len <= total);
        }
        self.bytes_written = self.bytes_written + metadata_len + body_len;
        self.ipc_fields = Option::Some(fields);
        self.state = StreamState::Started;
        proof {
            self.history@ = self.history@.push(message@);
        }
        proof {
            assert(self.writer@ =~= self.base@ + stream_bytes(self.history@) + Seq::<u8>::empty());
        }
        Result::Ok(())
    }

    /// Writes one chunk: for every dictionary column whose values are new
    /// or changed, a dictionary message, then exactly one data message —
    /// dictionaries always before the data that references them, and a
    /// dictionary confirmed unchanged is never re-sent. Writing before
    /// `start` or after `finish` fails and writes nothing; a chunk that
    /// does not conform to the mapping is rejected whole; a changed
    /// dictionary under the no-replacement policy rejects the chunk with
    /// nothing written, though dictionaries recorded before the rejecting
    /// column stay recorded.
    #[verifier::rlimit(100)]
    pub fn write(&mut self, columns: &Chunk, ipc_fields: Option<&Vec<IpcField>>) -> (r: Result<
        (),
        StreamError,
    >)
        requires
            old(self).wf(),
        ensures
            final(self).wf(),
            final(self).state == old(self).state,
            final(self).write_options == old(self).write_options,
            final(self).base@ == old(self).base@,
            final(self).ipc_fields == old(self).ipc_fields,
            final(self).dictionary_tracker@.cannot_replace == old(
                self,
            ).dictionary_tracker@.cannot_replace,
            old(self).state is Finished ==> r == Result::<(), StreamError>::Err(
                StreamError::TerminalStream,
            ) && *final(self) == *old(self),
            old(self).state is NotStarted ==> r == Result::<(), StreamError>::Err(
                StreamError::NotStarted,
            ) && *final(self) == *old(self),
            old(self).state is Started ==> ({
                let mapping = match ipc_fields {
                    Option::Some(m) => m@,
                    Option::None => old(self).fixed_mapping(),
                };
                &&& (!conforms(columns@, mapping) ==> r == Result::<(), StreamError>::Err(
                    StreamError::InvalidChunk,
                ) && *final(self) == *old(self))
                &&& (conforms(columns@, mapping) ==> ({
                    let outcome = encode_dicts(
                        old(self).dictionary_tracker@.dictionaries,
                        old(self).dictionary_tracker@.cannot_replace,
                        columns@,
                        mapping,
                    );
                    &&& final(self).dictionary_tracker@.dictionaries == outcome.dictionaries
                    &&& (outcome.accepted <==> r is Ok)
                    &&& (r is Ok ==> ({
                        let emitted = outcome.messages + seq![data_message(columns@)];
                        &&& final(self).history@ == old(self).history@ + emitted
                        &&& final(self).writer@ == old(self).writer@ + stream_bytes(emitted)
                        &&& final(self).bytes_written == old(self).bytes_written + stream_bytes(
                            emitted,
                        ).len()
                    }))
                    &&& (!outcome.accepted ==> r == Result::<(), StreamError>::Err(
                        StreamError::DictionaryReplacementRejected,
                    ) && final(self).writer@ == old(self).writer@ && final(self).bytes_written
                        == old(self).bytes_written && final(self).history@ == old(self).history@)
                }))
            }),
    {
        match self.state {
            StreamState::Finished => {
                return Result::Err(StreamError::TerminalStream);
            },
            StreamState::NotStarted => {
                return Result::Err(StreamError::NotStarted);
            },
            StreamState::Started => {},
        }
        let fields: &Vec<IpcField> = match ipc_fields {
            Option::Some(f) => f,
            Option::None => match &self.ipc_fields {
                Option::Some(f) => f,
                Option::None => {
                    proof {
                        assert(false);
                    }
                    vstd::pervasive::unreached()
                },
            },
        };
        if !crate::chunk::check_conforms(columns, fields) {
            return Result::Err(StreamError::InvalidChunk);
        }
        let ghost outcome = encode_dicts(
            self.dictionary_tracker@.dictionaries,
            self.dictionary_tracker@.cannot_replace,
            columns@,
            fields@,
        );
        let encoded = encode_chunk(columns, fields, &mut self.dictionary_tracker);
        let (dicts, data) = match encoded {
            Result::Ok(pair) => pair,
            Result::Err(_) => {
                return Result::Err(StreamError::DictionaryReplacementRejected);
            },
        };
        proof {
            crate::encode::lemma_encode_upto_header_len(
                old(self).dictionary_tracker@.dictionaries,
                old(self).dictionary_tracker@.cannot_replace,
                columns@,
                fields@,
                columns@.len() as int,
            );
            assert forall|k: int| 0 <= k < dicts@.len() implies (#[trigger] dicts@[k]).ipc_message@.len()
                <= 0xFFFF_FF00 by {
                assert(dicts@[k]@ == outcome.messages[k]);
            }
        }
        let dict_bytes = write_messages(&mut self.writer, &dicts);
        let (metadata_len, body_len) = write_message(&mut self.writer, &data);
        let total = self.writer.len();
        let ghost emitted = outcome.messages + seq![data_message(columns@)];
        proof {
            lemma_frame_bytes_len(data@.header, data@.body);
            lemma_stream_bytes_push(outcome.messages, data@);
            assert(outcome.messages.push(data@) =~= emitted);
            lemma_stream_bytes_concat(self.history@, emitted);
            assert(self.writer@ =~= self.base@ + stream_bytes(self.history@ + emitted)
                + Seq::<u8>::empty());
            assert(self.bytes_written + dict_bytes + metadata_len + body_len <= total);
        }
        self.bytes_written = self.bytes_written + dict_bytes + metadata_len + body_len;
        proof {
            self.history@ = self.history@ + emitted;
        }
        Result::Ok(())
    }

    /// How many bytes this writer has appended to the sink: metadata and
    /// bodies of every message framed so far, plus the terminal marker once
    /// finished.
    pub fn bytes_written(&self) -> (r: usize)
        ensures
            r == self.bytes_written,
    {
        self.bytes_written
    }

    /// Writes the end-of-stream marker — four zero bytes, the only sign a
    /// reader gets that no further messages will arrive — and makes the
    /// stream terminal. Finishing before `start` or a second time fails
    /// and writes nothing.
    pub fn finish(&mut self) -> (r: Result<(), StreamError>)
        requires
            old(self).wf(),
        ensures
            final(self).wf(),
            final(self).write_options == old(self).write_options,
            final(self).base@ == old(self).base@,
            final(self).ipc_fields == old(self).ipc_fields,
            final(self).dictionary_tracker == old(self).dictionary_tracker,
            final(self).history@ == old(self).history@,
            old(self).state is NotStarted ==> r == Result::<(), StreamError>::Err(
                StreamError::NotStarted,
            ) && *final(self) == *old(self),
            old(self).state is Finished ==> r == Result::<(), StreamError>::Err(
                StreamError::TerminalStream,
            ) && *final(self) == *old(self),
            old(self).state is Started ==> ({
                &&& r is Ok
                &&& final(self).state is Finished
                &&& final(self).writer@ == old(self).writer@ + end_marker_bytes()
                &&& final(self).bytes_written == old(self).bytes_written + 4
            }),
    {
        match self.state {
            StreamState::NotStarted => {
                return Result::Err(StreamError::NotStarted);
            },
            StreamState::Finished => {
                return Result::Err(StreamError::TerminalStream);
            },
            StreamState::Started => {},
        }
        write_end_marker(&mut self.writer);
        let total = self.writer.len();
        proof {
            assert(self.bytes_written + 4 <= total);
        }
        self.bytes_written = self.bytes_written + 4;
        self.state = StreamState::Finished;
        Result::Ok(())
    }

    /// Consumes the writer and returns the sink, transferring its
    /// ownership back to the caller.
    pub fn into_inner(self) -> (r: Vec<u8>)
        ensures
            r@ == self.writer@,
    {
        self.writer
    }
}

} // verus!
