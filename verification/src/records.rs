//! The line-delimited protocol's record shape: each data line carries an
//! array of choices, each with an optional delta (text and/or audio) and an
//! optional finish marker. Extraction from a parsed JSON tree follows the
//! usual rules for optional fields: a missing or null field is absent, a
//! field of the wrong kind makes the whole record malformed, and unknown
//! fields are ignored.

use vstd::prelude::*;

verus! {

use crate::json::{obj_get, spec_obj_get, JsonNode};

/// Base64-carried audio payload of a delta.
pub struct AudioChunk {
    pub data: String,
}

/// One incremental unit of model output: optional text, optional audio.
pub struct StreamDelta {
    pub content: Option<String>,
    pub audio_chunk: Option<AudioChunk>,
}

/// One choice of a record: an optional delta and an optional finish marker.
pub struct StreamChoice {
    pub delta: Option<StreamDelta>,
    pub finish_reason: Option<String>,
}

/// One protocol record: an optional array of choices.
pub struct StreamChunk {
    pub choices: Option<Vec<StreamChoice>>,
}

pub struct AudioChunkModel {
    pub data: Seq<char>,
}

pub struct StreamDeltaModel {
    pub content: Option<Seq<char>>,
    pub audio_chunk: Option<AudioChunkModel>,
}

pub struct StreamChoiceModel {
    pub delta: Option<StreamDeltaModel>,
    pub finish_reason: Option<Seq<char>>,
}

pub struct StreamChunkModel {
    pub choices: Option<Seq<StreamChoiceModel>>,
}

impl View for AudioChunk {
    type V = AudioChunkModel;

    open spec fn view(&self) -> AudioChunkModel {
        AudioChunkModel { data: self.data@ }
    }
}

impl View for StreamDelta {
    type V = StreamDeltaModel;

    open spec fn view(&self) -> StreamDeltaModel {
        StreamDeltaModel {
            content: match self.content {
                Option::Some(s) => Option::Some(s@),
                Option::None => Option::None,
            },
            audio_chunk: match self.audio_chunk {
                Option::Some(a) => Option::Some(a@),
                Option::None => Option::None,
            },
        }
    }
}

impl View for StreamChoice {
    type V = StreamChoiceModel;

    open spec fn view(&self) -> StreamChoiceModel {
        StreamChoiceModel {
            delta: match self.delta {
                Option::Some(d) => Option::Some(d@),
                Option::None => Option::None,
            },
            finish_reason: match self.finish_reason {
                Option::Some(s) => Option::Some(s@),
                Option::None => Option::None,
            },
        }
    }
}

impl View for StreamChunk {
    type V = StreamChunkModel;

    open spec fn view(&self) -> StreamChunkModel {
        StreamChunkModel {
            choices: match self.choices {
                Option::Some(cs) => Option::Some(
                    Seq::new(cs@.len(), |i: int| cs@[i]@),
                ),
                Option::None => Option::None,
            },
        }
    }
}

/// An optional string field: absent or null is absent; a string is its
/// value; any other kind makes the record malformed.
pub open spec fn spec_string_field(fields: Seq<(String, JsonNode)>, key: Seq<char>) -> Option<
    Option<Seq<char>>,
> {
    match spec_obj_get(fields, key) {
        Option::None => Option::Some(Option::None),
        Option::Some(JsonNode::Null) => Option::Some(Option::None),
        Option::Some(JsonNode::Str(s)) => Option::Some(Option::Some(s@)),
        Option::Some(_) => Option::None,
    }
}

/// An audio payload record: an object whose `data` field is a string.
pub open spec fn spec_audio_of(n: JsonNode) -> Option<AudioChunkModel> {
    match n {
        JsonNode::Obj(fields) => match spec_obj_get(fields@, "data"@) {
            Option::Some(JsonNode::Str(s)) => Option::Some(AudioChunkModel { data: s@ }),
            _ => Option::None,
        },
        _ => Option::None,
    }
}

/// A delta record: an object with optional `content` string and optional
/// `audio_chunk` payload.
pub open spec fn spec_delta_of(n: JsonNode) -> Option<StreamDeltaModel> {
    match n {
        JsonNode::Obj(fields) => {
            let c = spec_string_field(fields@, "content"@);
            let a = match spec_obj_get(fields@, "audio_chunk"@) {
                Option::None => Option::Some(Option::None),
                Option::Some(JsonNode::Null) => Option::Some(Option::None),
                Option::Some(other) => match spec_audio_of(other) {
                    Option::Some(m) => Option::Some(Option::Some(m)),
                    Option::None => Option::None,
                },
            };
            match (c, a) {
                (Option::Some(content), Option::Some(audio)) => Option::Some(
                    StreamDeltaModel { content, audio_chunk: audio },
                ),
                _ => Option::None,
            }
        },
        _ => Option::None,
    }
}

/// A choice record: an object with optional `delta` record and optional
/// `finish_reason` string.
pub open spec fn spec_choice_of(n: JsonNode) -> Option<StreamChoiceModel> {
    match n {
        JsonNode::Obj(fields) => {
            let d = match spec_obj_get(fields@, "delta"@) {
                Option::None => Option::Some(Option::None),
                Option::Some(JsonNode::Null) => Option::Some(Option::None),
                Option::Some(other) => match spec_delta_of(other) {
                    Option::Some(m) => Option::Some(Option::Some(m)),
                    Option::None => Option::None,
                },
            };
            let fr = spec_string_field(fields@, "finish_reason"@);
            match (d, fr) {
                (Option::Some(delta), Option::Some(finish)) => Option::Some(
                    StreamChoiceModel { delta, finish_reason: finish },
                ),
                _ => Option::None,
            }
        },
        _ => Option::None,
    }
}

/// A choices array: every element must be a well-formed choice record.
pub open spec fn spec_choices_of(elems: Seq<JsonNode>) -> Option<Seq<StreamChoiceModel>>
    decreases elems.len(),
{
    if elems.len() == 0 {
        Option::Some(Seq::empty())
    } else {
        match (spec_choices_of(elems.drop_last()), spec_choice_of(elems.last())) {
            (Option::Some(pre), Option::Some(c)) => Option::Some(pre.push(c)),
            _ => Option::None,
        }
    }
}

/// A whole record: an object whose `choices` field, when present and not
/// null, is an array of well-formed choice records.
pub open spec fn spec_chunk_of(n: JsonNode) -> Option<StreamChunkModel> {
    match n {
        JsonNode::Obj(fields) => match spec_obj_get(fields@, "choices"@) {
            Option::None => Option::Some(StreamChunkModel { choices: Option::None }),
            Option::Some(JsonNode::Null) => Option::Some(StreamChunkModel { choices: Option::None }),
            Option::Some(JsonNode::Arr(elems)) => match spec_choices_of(elems@) {
                Option::Some(cs) => Option::Some(StreamChunkModel { choices: Option::Some(cs) }),
                Option::None => Option::None,
            },
            Option::Some(_) => Option::None,
        },
        _ => Option::None,
    }
}

fn audio_of_json(n: &JsonNode) -> (r: Option<AudioChunk>)
    ensures
        match r {
            Some(a) => spec_audio_of(*n) == Some(a@),
            None => spec_audio_of(*n) is None,
        },
{
    match n {
        JsonNode::Obj(fields) => match obj_get(fields, "data") {
            Some(JsonNode::Str(s)) => Some(AudioChunk { data: s.clone() }),
            _ => None,
        },
        _ => None,
    }
}

fn string_field(fields: &Vec<(String, JsonNode)>, key: &str) -> (r: Option<Option<String>>)
    ensures
        match r {
            Some(Some(s)) => spec_string_field(fields@, key@) == Some(Some(s@)),
            Some(None) => spec_string_field(fields@, key@) == Some(Option::<Seq<char>>::None),
            None => spec_string_field(fields@, key@) is None,
        },
{
    match obj_get(fields, key) {
        None => Some(None),
        Some(JsonNode::Null) => Some(None),
        Some(JsonNode::Str(s)) => Some(Some(s.clone())),
        Some(_) => None,
    }
}

fn delta_of_json(n: &JsonNode) -> (r: Option<StreamDelta>)
    ensures
        match r {
            Some(d) => spec_delta_of(*n) == Some(d@),
            None => spec_delta_of(*n) is None,
        },
{
    match n {
        JsonNode::Obj(fields) => {
            let c = match string_field(fields, "content") {
                Some(v) => v,
                None => {
                    return None;
                },
            };
            let a = match obj_get(fields, "audio_chunk") {
                None => None,
                Some(JsonNode::Null) => None,
                Some(other) => match audio_of_json(other) {
                    Some(m) => Some(m),
                    None => {
                        return None;
                    },
                },
            };
            Some(StreamDelta { content: c, audio_chunk: a })
        },
        _ => None,
    }
}

fn choice_of_json(n: &JsonNode) -> (r: Option<StreamChoice>)
    ensures
        match r {
            Some(c) => spec_choice_of(*n) == Some(c@),
            None => spec_choice_of(*n) is None,
        },
{
    match n {
        JsonNode::Obj(fields) => {
            let d = match obj_get(fields, "delta") {
                None => None,
                Some(JsonNode::Null) => None,
                Some(other) => match delta_of_json(other) {
                    Some(m) => Some(m),
                    None => {
                        return None;
                    },
                },
            };
            let fr = match string_field(fields, "finish_reason") {
                Some(v) => v,
                None => {
                    return None;
                },
            };
            Some(StreamChoice { delta: d, finish_reason: fr })
        },
        _ => None,
    }
}

/// Extract a whole protocol record from a parsed JSON tree, or nothing when
/// the tree does not have the record shape.
#[verifier::loop_isolation(false)]
pub fn chunk_of_json(n: &JsonNode) -> (r: Option<StreamChunk>)
    ensures
        match r {
            Some(c) => spec_chunk_of(*n) == Some(c@),
            None => spec_chunk_of(*n) is None,
        },
{
    match n {
        JsonNode::Obj(fields) => match obj_get(fields, "choices") {
            None => Some(StreamChunk { choices: None }),
            Some(JsonNode::Null) => Some(StreamChunk { choices: None }),
            Some(JsonNode::Arr(elems)) => {
                let m = elems.len();
                let mut out: Vec<StreamChoice> = Vec::new();
                let mut i: usize = 0;
                while i < m
                    invariant
                        m == elems@.len(),
                        i <= m,
                        out@.len() == i,
                        spec_choices_of(elems@.take(i as int)) == Some(
                            Seq::new(out@.len(), |j: int| out@[j]@),
                        ),
                    decreases m - i,
                {
                    match choice_of_json(&elems[i]) {
                        Some(c) => {
                            out.push(c);
                            proof {
                                assert(elems@.take(i as int + 1).drop_last() =~= elems@.take(
                                    i as int,
                                ));
                                assert(elems@.take(i as int + 1).last() == elems@[i as int]);
                                assert(Seq::new(out@.len(), |j: int| out@[j]@) =~= Seq::new(
                                    (out@.len() - 1) as nat,
                                    |j: int| out@[j]@,
                                ).push(out@[out@.len() - 1]@));
                            }
                        },
                        None => {
                            proof {
                                lemma_choices_of_bad_elem(elems@, i as int);
                            }
                            return None;
                        },
                    }
                    i = i + 1;
                }
                proof {
                    assert(elems@.take(m as int) =~= elems@);
                }
                Some(StreamChunk { choices: Some(out) })
            },
            Some(_) => None,
        },
        _ => None,
    }
}

/// An array with one malformed element has no well-formed reading.
proof fn lemma_choices_of_bad_elem(elems: Seq<JsonNode>, i: int)
    requires
        0 <= i < elems.len(),
        spec_choice_of(elems[i]) is None,
    ensures
        spec_choices_of(elems) is None,
    decreases elems.len(),
{
    if elems.len() > 0 {
        if i == elems.len() - 1 {
        } else {
            lemma_choices_of_bad_elem(elems.drop_last(), i);
        }
    }
}

} // verus!
