//! The upload of a run's proofs.

use vstd::prelude::*;
use vstd::string::*;

use crate::digest::{hex_bytes, hex_decode, is_hex};
use crate::incremental_runner::SliceArtifact;
use crate::json::{items, lemma_items, put, Json, JsonV};

verus! {

/// Uploads proofs in the name of a validator.
#[derive(Debug)]
pub struct ProofUploader {
    pub validator_key: String,
}

/// What is said of a piece when a place for its proof is asked for.
pub open spec fn meta_json(a: SliceArtifact) -> JsonV {
    JsonV::Object(
        Map::<Seq<char>, JsonV>::empty()
            .insert("slice_num"@, JsonV::Text(a.slice_num@))
            .insert("artifact_type"@, JsonV::Text("proof"@)),
    )
}

/// What is said of pieces when places for their proofs are asked for.
pub open spec fn metas_json(s: Seq<SliceArtifact>) -> Seq<JsonV> {
    Seq::new(s.len(), |i: int| meta_json(s[i]))
}

/// The places that an answer names: under `urls`, else under `artifacts`.
pub open spec fn places_in(answer: JsonV) -> Seq<JsonV> {
    let named = match answer.member("urls"@) {
        Some(v) => Some(v),
        None => answer.member("artifacts"@),
    };
    match named {
        Some(v) => match v.list() {
            Some(s) => s,
            None => Seq::empty(),
        },
        None => Seq::empty(),
    }
}

/// A member of a value, as text.
pub open spec fn member_text(v: JsonV, name: Seq<char>) -> Option<Seq<char>> {
    match v.member(name) {
        Some(m) => m.text(),
        None => None,
    }
}

/// Whether a proof can be uploaded: there is a place for it, and it can be read.
pub open spec fn uploadable(a: SliceArtifact, place: JsonV) -> bool {
    &&& member_text(place, "upload_url"@) is Some
    &&& a.proof_hex matches Some(h) && is_hex(h@)
}

/// The positions below `n` at which proofs can be uploaded, in order.
pub open spec fn uploads_at(s: Seq<SliceArtifact>, places: Seq<JsonV>, n: nat) -> Seq<int>
    decreases n,
{
    if n == 0 {
        Seq::empty()
    } else {
        let r = uploads_at(s, places, (n - 1) as nat);
        if uploadable(s[n - 1], places[n - 1]) {
            r.push(n - 1)
        } else {
            r
        }
    }
}

/// A proof on its way.
#[derive(Debug)]
pub struct Upload {
    /// Which piece of the run it belongs to.
    pub index: usize,
    pub upload_url: String,
    pub gcs_key: String,
    pub bytes: Vec<u8>,
}

/// Whether an upload is that of a proof.
pub open spec fn is_upload_of(u: Upload, index: int, a: SliceArtifact, place: JsonV) -> bool {
    &&& u.index == index
    &&& Some(u.upload_url@) == member_text(place, "upload_url"@)
    &&& u.gcs_key@ == (match member_text(place, "gcs_key"@) {
        Some(t) => t,
        None => Seq::empty(),
    })
    &&& u.bytes@ == hex_bytes(a.proof_hex->0@)
}

fn text_member<'a>(v: &'a Json, name: &str) -> (r: Option<&'a str>)
    ensures
        match r {
            Some(t) => member_text(v@, name@) == Some(t@),
            None => member_text(v@, name@) is None,
        },
{
    match v.get(name) {
        Some(m) => m.as_str(),
        None => None,
    }
}

/// The places that an answer names for proofs.
pub fn upload_urls(answer: &Json) -> (r: Vec<Json>)
    ensures
        items(r@) == places_in(answer@),
{
    let named: Option<&Json> = match answer.get("urls") {
        Some(v) => Some(v),
        None => answer.get("artifacts"),
    };
    let mut r: Vec<Json> = Vec::new();
    proof {
        lemma_items(r@);
        assert(items(r@) =~= Seq::empty());
    }
    if let Some(v) = named {
        if let Some(list) = v.as_array() {
            proof {
                lemma_items(list@);
            }
            let mut i: usize = 0;
            while i < list.len()
                invariant
                    i <= list@.len(),
                    r@.len() == i,
                    forall|k: int| 0 <= k < i ==> (#[trigger] r@[k])@ == list@[k]@,
                decreases list@.len() - i,
            {
                r.push(list[i].copy());
                i += 1;
            }
            proof {
                lemma_items(r@);
                assert(items(r@) =~= items(list@));
            }
        }
    }
    r
}

/// Decides which proofs are uploaded where. A proof without a place, or one that
/// cannot be read, is passed over. Of two lists of different length the shorter
/// one counts.
pub fn plan_uploads(artifacts: &Vec<SliceArtifact>, urls: &Vec<Json>) -> (r: Vec<Upload>)
    ensures
        ({
            let n = if artifacts@.len() < urls@.len() {
                artifacts@.len()
            } else {
                urls@.len()
            };
            let at = uploads_at(artifacts@, items(urls@), n);
            &&& r@.len() == at.len()
            &&& forall|i: int|
                0 <= i < r@.len() ==> is_upload_of(
                    #[trigger] r@[i],
                    at[i],
                    artifacts@[at[i]],
                    items(urls@)[at[i]],
                )
        }),
{
    proof {
        lemma_items(urls@);
    }
    let ghost places = items(urls@);
    let mut r: Vec<Upload> = Vec::new();
    let mut i: usize = 0;
    while i < artifacts.len() && i < urls.len()
        invariant
            places == items(urls@),
            places.len() == urls@.len(),
            forall|k: int| 0 <= k < urls@.len() ==> places[k] == (#[trigger] urls@[k])@,
            i <= artifacts@.len(),
            i <= urls@.len(),
            r@.len() == uploads_at(artifacts@, places, i as nat).len(),
            forall|k: int|
                0 <= k < r@.len() ==> is_upload_of(
                    #[trigger] r@[k],
                    uploads_at(artifacts@, places, i as nat)[k],
                    artifacts@[uploads_at(artifacts@, places, i as nat)[k]],
                    places[uploads_at(artifacts@, places, i as nat)[k]],
                ),
        decreases artifacts@.len() - i,
    {
        proof {
            assert(places[i as int] == urls@[i as int]@);
        }
        let url = text_member(&urls[i], "upload_url");
        let bytes: Option<Vec<u8>> = match &artifacts[i].proof_hex {
            Some(h) => hex_decode(h.as_str()),
            None => None,
        };
        if let Some(u) = url {
            if let Some(b) = bytes {
                let gcs_key = match text_member(&urls[i], "gcs_key") {
                    Some(t) => t.to_owned(),
                    None => String::new(),
                };
                proof {
                    assert(gcs_key@ =~= (match member_text(places[i as int], "gcs_key"@) {
                        Some(t) => t,
                        None => Seq::empty(),
                    }));
                }
                r.push(Upload { index: i, upload_url: u.to_owned(), gcs_key, bytes: b });
            }
        }
        i += 1;
    }
    r
}

/// What is said of a proof that was uploaded. `system` is the name of its proof
/// system, where it is known.
pub open spec fn confirmed_json(a: SliceArtifact, system: Option<String>, u: Upload) -> JsonV {
    JsonV::Object(
        Map::<Seq<char>, JsonV>::empty()
            .insert("slice_num"@, JsonV::Text(a.slice_num@))
            .insert(
                "proof_system"@,
                match system {
                    Some(s) => JsonV::Text(s@),
                    None => JsonV::Null,
                },
            )
            .insert("gcs_key"@, JsonV::Text(u.gcs_key@))
            .insert("size_bytes"@, JsonV::Int(u.bytes@.len() as int))
            .insert(
                "tile_idx"@,
                match a.tile_idx {
                    Some(t) => JsonV::Int(t as int),
                    None => JsonV::Null,
                },
            )
            .insert("artifact_type"@, JsonV::Text("proof"@)),
    )
}

/// Says of a proof that it was uploaded.
pub fn confirm(artifact: &SliceArtifact, system: Option<String>, upload: &Upload) -> (r: Json)
    ensures
        r@ == confirmed_json(*artifact, system, *upload),
{
    let mut list: Vec<(String, Json)> = Vec::new();
    proof {
        crate::json::lemma_members_empty(list@);
    }
    put(&mut list, "slice_num", Json::Text(artifact.slice_num.clone()));
    let named = match system {
        Some(s) => Json::Text(s),
        None => Json::Null,
    };
    put(&mut list, "proof_system", named);
    put(&mut list, "gcs_key", Json::Text(upload.gcs_key.clone()));
    put(&mut list, "size_bytes", Json::Unsigned(upload.bytes.len() as u64));
    let tile = match artifact.tile_idx {
        Some(t) => Json::Unsigned(t as u64),
        None => Json::Null,
    };
    put(&mut list, "tile_idx", tile);
    put(&mut list, "artifact_type", Json::Text("proof".to_owned()));
    Json::Object(list)
}

impl ProofUploader {
    /// An uploader for a validator.
    pub fn new(validator_key: String) -> (u: Self)
        ensures
            u.validator_key == validator_key,
    {
        ProofUploader { validator_key }
    }

    /// The question for places for the proofs of a run.
    pub fn request_upload_urls(
        &self,
        run_uid: &str,
        circuit_id: &str,
        artifacts: &Vec<SliceArtifact>,
    ) -> (r: Json)
        ensures
            r@ == JsonV::Object(
                Map::<Seq<char>, JsonV>::empty()
                    .insert("validator_key"@, JsonV::Text(self.validator_key@))
                    .insert("run_uid"@, JsonV::Text(run_uid@))
                    .insert("circuit_id"@, JsonV::Text(circuit_id@))
                    .insert("artifacts"@, JsonV::Array(metas_json(artifacts@))),
            ),
    {
        let mut metas: Vec<Json> = Vec::new();
        let mut i: usize = 0;
        while i < artifacts.len()
            invariant
                i <= artifacts@.len(),
                metas@.len() == i,
                forall|k: int| 0 <= k < i ==> (#[trigger] metas@[k])@ == meta_json(artifacts@[k]),
            decreases artifacts@.len() - i,
        {
            let mut one: Vec<(String, Json)> = Vec::new();
            proof {
                crate::json::lemma_members_empty(one@);
            }
            put(&mut one, "slice_num", Json::Text(artifacts[i].slice_num.clone()));
            put(&mut one, "artifact_type", Json::Text("proof".to_owned()));
            metas.push(Json::Object(one));
            i += 1;
        }
        let mut list: Vec<(String, Json)> = Vec::new();
        proof {
            lemma_items(metas@);
            assert(items(metas@) =~= metas_json(artifacts@));
            crate::json::lemma_members_empty(list@);
        }
        put(&mut list, "validator_key", Json::Text(self.validator_key.clone()));
        put(&mut list, "run_uid", Json::Text(run_uid.to_owned()));
        put(&mut list, "circuit_id", Json::Text(circuit_id.to_owned()));
        put(&mut list, "artifacts", Json::Array(metas));
        Json::Object(list)
    }

    /// The word that proofs of a run were uploaded, if any were.
    pub fn confirm_uploads(
        &self,
        run_uid: &str,
        circuit_id: &str,
        circuit_name: &str,
        confirmed: Vec<Json>,
    ) -> (r: Option<Json>)
        ensures
            r is Some == (confirmed@.len() > 0),
            r matches Some(j) ==> j@ == JsonV::Object(
                Map::<Seq<char>, JsonV>::empty()
                    .insert("validator_key"@, JsonV::Text(self.validator_key@))
                    .insert("run_uid"@, JsonV::Text(run_uid@))
                    .insert("circuit_id"@, JsonV::Text(circuit_id@))
                    .insert("circuit_name"@, JsonV::Text(circuit_name@))
                    .insert("artifacts"@, JsonV::Array(items(confirmed@))),
            ),
    {
        if confirmed.len() == 0 {
            return None;
        }
        let mut list: Vec<(String, Json)> = Vec::new();
        proof {
            crate::json::lemma_members_empty(list@);
        }
        put(&mut list, "validator_key", Json::Text(self.validator_key.clone()));
        put(&mut list, "run_uid", Json::Text(run_uid.to_owned()));
        put(&mut list, "circuit_id", Json::Text(circuit_id.to_owned()));
        put(&mut list, "circuit_name", Json::Text(circuit_name.to_owned()));
        put(&mut list, "artifacts", Json::Array(confirmed));
        Some(Json::Object(list))
    }

    /// The output of a run.
    pub fn upload_final_output(&self, run_uid: &str, circuit_id: &str, output: Json) -> (r: Json)
        ensures
            r@ == JsonV::Object(
                Map::<Seq<char>, JsonV>::empty()
                    .insert("validator_key"@, JsonV::Text(self.validator_key@))
                    .insert("run_uid"@, JsonV::Text(run_uid@))
                    .insert("circuit_id"@, JsonV::Text(circuit_id@))
                    .insert("output"@, output@),
            ),
    {
        let mut list: Vec<(String, Json)> = Vec::new();
        proof {
            crate::json::lemma_members_empty(list@);
        }
        put(&mut list, "validator_key", Json::Text(self.validator_key.clone()));
        put(&mut list, "run_uid", Json::Text(run_uid.to_owned()));
        put(&mut list, "circuit_id", Json::Text(circuit_id.to_owned()));
        put(&mut list, "output", output);
        Json::Object(list)
    }
}

} // verus!
