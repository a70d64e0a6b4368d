//! The submission document and its JSON form.

use crate::text::{comma_separated, join_with_commas, texts};
use vstd::prelude::*;
use vstd::string::StringExecFns;

verus! {

/// One submission: who submits, the key that proves it, where the key can be
/// fetched, and the URLs submitted.
#[derive(Debug, Clone, PartialEq, Eq)]
pub struct Request {
    pub host: String,
    pub key: String,
    pub key_location: String,
    pub url_list: Vec<String>,
}

/// A [`Request`] with its strings as character sequences.
pub struct RequestView {
    pub host: Seq<char>,
    pub key: Seq<char>,
    pub key_location: Seq<char>,
    pub url_list: Seq<Seq<char>>,
}

impl View for Request {
    type V = RequestView;

    open spec fn view(&self) -> RequestView {
        RequestView {
            host: self.host@,
            key: self.key@,
            key_location: self.key_location@,
            url_list: texts(self.url_list@),
        }
    }
}

/// Why a batch could not be produced.
#[derive(Debug, Clone, PartialEq, Eq)]
pub enum BatchError {
    /// A string of the submission could not be written as JSON; `detail` is
    /// the encoder's own message.
    Serialize { detail: String },
}

impl BatchError {
    /// The message of the error, for a log.
    pub fn message(&self) -> (text: String)
        ensures
            match *self {
                BatchError::Serialize { detail } => text@ == detail@,
            },
    {
        match self {
            BatchError::Serialize { detail } => detail.clone(),
        }
    }
}

#[verifier::external_type_specification]
#[verifier::external_body]
pub struct ExJsonError(serde_json::Error);

/// What `serde_json::to_string` makes of the string `text`: the JSON string
/// literal if it accepts the text, nothing if it refuses it.
pub uninterp spec fn json_encoding(text: Seq<char>) -> Option<Seq<char>>;

/// Whether the JSON encoder accepts `text`.
pub open spec fn json_encodable(text: Seq<char>) -> bool {
    json_encoding(text) is Some
}

/// `serde_json::to_string` on a string slice. Whether it succeeds and, when
/// it does, what it returns depend on `text` alone: both are what
/// `json_encoding` names. Nothing is claimed about when it succeeds.
#[verifier::external_body]
fn encode_string(text: &str) -> (r: Result<String, serde_json::Error>)
    ensures
        r matches Ok(literal) ==> json_encoding(text@) == Some(literal@),
        r is Err ==> json_encoding(text@) is None,
{
    serde_json::to_string(text)
}

/// The message of a `serde_json::Error`, as its `Display` writes it.
#[verifier::external_body]
fn error_detail(error: &serde_json::Error) -> String {
    format!("{}", error)
}

/// The submission document around four JSON values that are already
/// written: an object with the members `host`, `key`, `keyLocation` and
/// `urlList`, in this order and without white space.
pub open spec fn request_document(
    host: Seq<char>,
    key: Seq<char>,
    key_location: Seq<char>,
    url_list: Seq<char>,
) -> Seq<char> {
    "{\"host\":"@ + host + ",\"key\":"@ + key + ",\"keyLocation\":"@ + key_location
        + ",\"urlList\":"@ + url_list + "}"@
}

/// A JSON array around elements that are already written.
pub open spec fn json_array(elements: Seq<Seq<char>>) -> Seq<char> {
    "["@ + comma_separated(elements) + "]"@
}

/// Frames a submission document. The arguments are JSON string literals as
/// the encoder wrote them; they are copied as they are.
pub fn frame_request(host: &str, key: &str, key_location: &str, urls: &Vec<String>) -> (doc:
    String)
    ensures
        doc@ == request_document(host@, key@, key_location@, json_array(texts(urls@))),
{
    let mut list = String::from_str("[");
    let joined = join_with_commas(urls);
    list.append(joined.as_str());
    list.append("]");
    let mut doc = String::from_str("{\"host\":");
    doc.append(host);
    doc.append(",\"key\":");
    doc.append(key);
    doc.append(",\"keyLocation\":");
    doc.append(key_location);
    doc.append(",\"urlList\":");
    doc.append(list.as_str());
    doc.append("}");
    assert(doc@ =~= request_document(host@, key@, key_location@, json_array(texts(urls@))));
    doc
}

/// Writes each string of `list` as a JSON string literal, and fails at the
/// first one that the encoder refuses.
fn encode_strings(list: &Vec<String>) -> (r: Result<Vec<String>, BatchError>)
    ensures
        r is Ok <==> all_encodable(texts(list@)),
        r matches Ok(literals) ==> texts(literals@) == json_strings(texts(list@)),
{
    let mut literals: Vec<String> = Vec::new();
    let mut i: usize = 0;
    while i < list.len()
        invariant
            0 <= i <= list.len(),
            literals@.len() == i,
            forall|j: int| 0 <= j < i ==> json_encoding(list@[j]@) == Some(#[trigger] literals@[j]@),
        decreases list.len() - i,
    {
        match encode_string(list[i].as_str()) {
            Ok(literal) => {
                literals.push(literal);
            },
            Err(error) => {
                assert(!json_encodable(texts(list@)[i as int]));
                return Err(BatchError::Serialize { detail: error_detail(&error) });
            },
        }
        i = i + 1;
    }
    assert forall|k: int| 0 <= k < list@.len() implies json_encodable(
        #[trigger] texts(list@)[k],
    ) by {
        assert(json_encoding(list@[k]@) == Some(literals@[k]@));
    }
    assert(texts(literals@) =~= json_strings(texts(list@)));
    Ok(literals)
}

impl Request {
    /// The submission as one JSON document. It is written exactly when the
    /// JSON encoder accepts every string of the submission; else the
    /// encoder's error for the first string that it refuses is returned.
    pub fn to_json(&self) -> (r: Result<String, BatchError>)
        ensures
            r is Ok <==> self@.encodable(),
            r matches Ok(doc) ==> doc@ == self@.json(),
    {
        let host = match encode_string(self.host.as_str()) {
            Ok(literal) => literal,
            Err(error) => {
                return Err(BatchError::Serialize { detail: error_detail(&error) });
            },
        };
        let key = match encode_string(self.key.as_str()) {
            Ok(literal) => literal,
            Err(error) => {
                return Err(BatchError::Serialize { detail: error_detail(&error) });
            },
        };
        let key_location = match encode_string(self.key_location.as_str()) {
            Ok(literal) => literal,
            Err(error) => {
                return Err(BatchError::Serialize { detail: error_detail(&error) });
            },
        };
        let urls = match encode_strings(&self.url_list) {
            Ok(literals) => literals,
            Err(error) => {
                return Err(error);
            },
        };
        Ok(frame_request(host.as_str(), key.as_str(), key_location.as_str(), &urls))
    }
}

/// The JSON string literal that the encoder writes for `text`: the text
/// between double quotes, with the escapes that JSON asks for. It is
/// meaningful for a text that the encoder accepts.
pub open spec fn json_string(text: Seq<char>) -> Seq<char> {
    json_encoding(text)->0
}

/// Whether the JSON encoder accepts every text of `list`.
pub open spec fn all_encodable(list: Seq<Seq<char>>) -> bool {
    forall|i: int| 0 <= i < list.len() ==> json_encodable(#[trigger] list[i])
}

/// The JSON string literals of the texts of `list`, in the list's order.
pub open spec fn json_strings(list: Seq<Seq<char>>) -> Seq<Seq<char>> {
    list.map_values(|text: Seq<char>| json_string(text))
}

impl RequestView {
    /// Whether the JSON encoder accepts every string of the submission.
    pub open spec fn encodable(self) -> bool {
        &&& json_encodable(self.host)
        &&& json_encodable(self.key)
        &&& json_encodable(self.key_location)
        &&& all_encodable(self.url_list)
    }

    /// The JSON document of the submission. It is meaningful for a
    /// submission whose strings the encoder accepts.
    pub open spec fn json(self) -> Seq<char> {
        request_document(
            json_string(self.host),
            json_string(self.key),
            json_string(self.key_location),
            json_array(json_strings(self.url_list)),
        )
    }
}

} // verus!
