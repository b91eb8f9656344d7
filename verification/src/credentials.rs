//! Keeping account secrets in the credential store: API keys under one entry,
//! ChatGPT tokens split into chunks that a manifest lists.
use vstd::prelude::*;
use vstd::string::StringExecFns;
use crate::types::{StorageError, TokenData, StoredAccount, AuthData, opt_view, copy_opt};
use crate::json::{compacted, compact_json};
use crate::json_items::{manifest_read, tokens_read, manifest_content, read_manifest_value, read_tokens_value};
use crate::generations::{listed_generations, lists, strictly_sorted_by_id, id_less, sorted_first_by_id, stale_candidates,
    stale_generations_after};
use crate::platform::new_uuid;
use crate::store::{same_metadata, chatgpt_auth_is};
use crate::names::{api_key_entry, chatgpt_manifest_entry, chatgpt_token_entry, api_key_entry_name,
    chatgpt_manifest_entry_name, chatgpt_token_entry_name, ID_TOKEN_FIELD, ACCESS_TOKEN_FIELD,
    REFRESH_TOKEN_FIELD};
use crate::chunks::{split_keyring_value, is_greedy_split, string_views};
use crate::keyring_store::{EntryWrite, EntryRead, read_keyring_entry, read_keyring_value, write_keyring_value, delete_keyring_value, names_entry};
use crate::manifest::{CredentialManifest, CredentialGeneration, ChatGptKeyringRecord, manifest_encodes,
    same_manifest, tokens_encode, token_view, manifest_from_json, tokens_from_json,
    CHATGPT_CREDENTIAL_VERSION, generation_view, manifest_to_json, encode_manifest};

verus! {

/// The most chunks one token may be split into.
pub const MAX_TOKEN_CHUNKS: u16 = 64;

/// `char::is_whitespace`: the characters with the Unicode `White_Space` property.
pub open spec fn is_whitespace(c: char) -> bool {
    let u = c as u32;
    ||| 0x9 <= u <= 0xd
    ||| u == 0x20
    ||| u == 0x85
    ||| u == 0xa0
    ||| u == 0x1680
    ||| 0x2000 <= u <= 0x200a
    ||| u == 0x2028
    ||| u == 0x2029
    ||| u == 0x202f
    ||| u == 0x205f
    ||| u == 0x3000
}

/// `s` is empty once whitespace is trimmed from it.
pub open spec fn is_blank(s: Seq<char>) -> bool {
    forall|i: int| 0 <= i < s.len() ==> is_whitespace(#[trigger] s[i])
}

fn char_is_whitespace(c: char) -> (b: bool)
    ensures
        b == is_whitespace(c),
{
    let u = c as u32;
    (0x9 <= u && u <= 0xd) || u == 0x20 || u == 0x85 || u == 0xa0 || u == 0x1680
        || (0x2000 <= u && u <= 0x200a) || u == 0x2028 || u == 0x2029 || u == 0x202f
        || u == 0x205f || u == 0x3000
}

/// `s.trim().is_empty()`.
pub fn blank(s: &str) -> (b: bool)
    ensures
        b == is_blank(s@),
{
    let cs = crate::text::chars_of(s);
    for i in 0..cs.len()
        invariant
            cs@ == s@,
            forall|k: int| 0 <= k < i ==> is_whitespace(#[trigger] cs@[k]),
    {
        if !char_is_whitespace(cs[i]) {
            return false;
        }
    }
    true
}

/// A failure of the credential store itself, or of what it holds.
pub open spec fn credential_store_error(e: StorageError) -> bool {
    ||| e is CredentialOpen
    ||| e is CredentialRead
    ||| e is CredentialWrite
    ||| e is CredentialDelete
    ||| e is UnsupportedManifest
    ||| e is InvalidManifest
    ||| e is InvalidChunkCount
    ||| e is MissingChunk
}

/// A token refused for its size.
pub open spec fn size_error(e: StorageError) -> bool {
    e is TooManyChunks || e is TokenTooLarge
}

/// A manifest this version of the switcher can read.
pub open spec fn supported_manifest(m: CredentialManifest) -> bool {
    m.version == CHATGPT_CREDENTIAL_VERSION && !is_blank(m.active_generation.id@)
}

/// `r` is what the compact JSON text `text` under an account's ChatGPT entry is read as:
/// the manifest it is a text of (refused as unsupported unless this version can read it),
/// otherwise the legacy tokens it is a text of, otherwise `InvalidManifest`.
pub open spec fn classifies(account_id: Seq<char>, text: Seq<char>, r: Result<ChatGptKeyringRecord, StorageError>)
    -> bool {
    &&& r matches Ok(ChatGptKeyringRecord::Current(h)) ==> manifest_encodes(h, text) && supported_manifest(h)
    &&& r matches Ok(ChatGptKeyringRecord::Legacy(u)) ==> tokens_encode(u, text)
        && forall|m: CredentialManifest| !manifest_encodes(m, text)
    &&& r matches Err(e) ==> (e matches StorageError::UnsupportedManifest { account_id: a } && a@ == account_id)
        || (e matches StorageError::InvalidManifest { account_id: a } && a@ == account_id)
    &&& forall|m: CredentialManifest| #[trigger] manifest_encodes(m, text) ==> if supported_manifest(m) {
        r matches Ok(ChatGptKeyringRecord::Current(h)) && same_manifest(h, m)
    } else {
        r matches Err(StorageError::UnsupportedManifest { account_id: a }) && a@ == account_id
    }
    &&& (forall|m: CredentialManifest| !manifest_encodes(m, text)) ==> {
        &&& forall|t: TokenData| #[trigger] tokens_encode(t, text)
            ==> (r matches Ok(ChatGptKeyringRecord::Legacy(u)) && token_view(u) == token_view(t))
        &&& (forall|t: TokenData| !tokens_encode(t, text))
            ==> (r matches Err(StorageError::InvalidManifest { account_id: a }) && a@ == account_id)
    }
}

/// Decides what a compact JSON text under an account's ChatGPT entry is.
pub fn classify_compact_record(account_id: &str, text: &str) -> (r: Result<ChatGptKeyringRecord, StorageError>)
    ensures
        classifies(account_id@, text@, r),
{
    match manifest_from_json(text) {
        Some(manifest) => {
            if manifest.version != CHATGPT_CREDENTIAL_VERSION || blank(manifest.active_generation.id.as_str()) {
                Err(StorageError::UnsupportedManifest { account_id: String::from_str(account_id) })
            } else {
                Ok(ChatGptKeyringRecord::Current(manifest))
            }
        },
        None => match tokens_from_json(text) {
            Some(tokens) => Ok(ChatGptKeyringRecord::Legacy(tokens)),
            None => Err(StorageError::InvalidManifest { account_id: String::from_str(account_id) }),
        },
    }
}

/// The compact text is one the library's own codec reads: a text of some manifest or of
/// some legacy token record.
pub open spec fn codec_reads(text: Seq<char>) -> bool {
    (exists|m: CredentialManifest| #[trigger] manifest_encodes(m, text))
        || (exists|t: TokenData| #[trigger] tokens_encode(t, text))
}

/// `r` is what `serde_json` reads `payload` as: the manifest it reads (refused as unsupported
/// unless this version can read it), otherwise the legacy tokens it reads, otherwise
/// `InvalidManifest`.
pub open spec fn serde_classifies(account_id: Seq<char>, payload: Seq<char>,
    r: Result<ChatGptKeyringRecord, StorageError>) -> bool {
    match manifest_read(payload) {
        Some(content) => if content.0 == CHATGPT_CREDENTIAL_VERSION && !is_blank(content.1.0) {
            r matches Ok(ChatGptKeyringRecord::Current(h)) && manifest_content(h) == content
        } else {
            r matches Err(StorageError::UnsupportedManifest { account_id: a }) && a@ == account_id
        },
        None => match tokens_read(payload) {
            Some(content) => r matches Ok(ChatGptKeyringRecord::Legacy(u)) && token_view(u) == content,
            None => r matches Err(StorageError::InvalidManifest { account_id: a }) && a@ == account_id,
        },
    }
}

/// Decides what a JSON text under an account's ChatGPT entry is, in any layout, from what
/// `serde_json` reads in it.
pub fn classify_record_value(account_id: &str, payload: &str) -> (r: Result<ChatGptKeyringRecord, StorageError>)
    ensures
        serde_classifies(account_id@, payload@, r),
{
    match read_manifest_value(payload) {
        Some(manifest) => {
            if manifest.version != CHATGPT_CREDENTIAL_VERSION || blank(manifest.active_generation.id.as_str()) {
                Err(StorageError::UnsupportedManifest { account_id: String::from_str(account_id) })
            } else {
                Ok(ChatGptKeyringRecord::Current(manifest))
            }
        },
        None => match read_tokens_value(payload) {
            Some(tokens) => Ok(ChatGptKeyringRecord::Legacy(tokens)),
            None => Err(StorageError::InvalidManifest { account_id: String::from_str(account_id) }),
        },
    }
}

/// Decides what the text stored under an account's ChatGPT entry is: a manifest (refused
/// unless this version can read it), tokens as earlier versions stored them, or neither.
/// The compact text the library writes is read by its own codec (whatever whitespace was
/// added); any other JSON text as `serde_json` reads it.
pub fn classify_keyring_record(account_id: &str, payload: &str) -> (r: Result<ChatGptKeyringRecord, StorageError>)
    ensures
        compacted(payload@) matches Some(text) ==> (codec_reads(text) ==> classifies(account_id@, text, r)),
        compacted(payload@) matches Some(text) ==> (!codec_reads(text) ==> serde_classifies(account_id@, payload@, r)),
        compacted(payload@) is None ==> serde_classifies(account_id@, payload@, r),
{
    let exact = match compact_json(payload) {
        Some(text) => {
            let r = classify_compact_record(account_id, text.as_str());
            proof {
                if r matches Err(StorageError::InvalidManifest { .. }) {
                    assert(!codec_reads(text@)) by {
                        if exists|m: CredentialManifest| #[trigger] manifest_encodes(m, text@) {
                            let m = choose|m: CredentialManifest| #[trigger] manifest_encodes(m, text@);
                            assert(manifest_encodes(m, text@));
                        }
                        if exists|t: TokenData| #[trigger] tokens_encode(t, text@) {
                            let t = choose|t: TokenData| #[trigger] tokens_encode(t, text@);
                            assert(tokens_encode(t, text@));
                        }
                    }
                } else {
                    assert(codec_reads(text@)) by {
                        match r {
                            Ok(ChatGptKeyringRecord::Current(h)) => { assert(manifest_encodes(h, text@)); },
                            Ok(ChatGptKeyringRecord::Legacy(u)) => { assert(tokens_encode(u, text@)); },
                            Err(e) => {
                                assert(e is UnsupportedManifest);
                                assert(exists|m: CredentialManifest| #[trigger] manifest_encodes(m, text@));
                            },
                        }
                    }
                }
            }
            r
        },
        None => Err(StorageError::InvalidManifest { account_id: String::from_str(account_id) }),
    };
    match exact {
        Err(StorageError::InvalidManifest { .. }) => classify_record_value(account_id, payload),
        other => other,
    }
}

/// Reads an account's API key from the credential store.
pub fn read_api_key_from_keyring(account_id: &str) -> (r: Result<Option<String>, StorageError>)
    ensures
        r matches Err(e) ==> names_entry(e, api_key_entry(account_id@)),
{
    read_keyring_value(api_key_entry_name(account_id).as_str())
}

/// Stores an account's API key in the credential store.
pub fn write_api_key_to_keyring(account_id: &str, key: &str) -> (r: Result<EntryWrite, StorageError>)
    ensures
        r matches Ok(written) ==> written.entry() == api_key_entry(account_id@) && written.value() == key@,
        r matches Err(e) ==> names_entry(e, api_key_entry(account_id@)),
{
    write_keyring_value(api_key_entry_name(account_id).as_str(), key)
}

/// Reads what an account's ChatGPT entry holds: `Ok(None)` where there is no entry.
pub fn read_chatgpt_keyring_record(account_id: &str) -> (r: Result<Option<ChatGptKeyringRecord>, StorageError>)
    ensures
        r matches Ok(Some(ChatGptKeyringRecord::Current(m))) ==> supported_manifest(m),
        r matches Err(e) ==> names_entry(e, chatgpt_manifest_entry(account_id@))
            || (e matches StorageError::UnsupportedManifest { account_id: a } && a@ == account_id@)
            || (e matches StorageError::InvalidManifest { account_id: a } && a@ == account_id@),
{
    let payload = match read_keyring_value(chatgpt_manifest_entry_name(account_id).as_str())? {
        Some(payload) => payload,
        None => { return Ok(None); },
    };
    match classify_keyring_record(account_id, payload.as_str()) {
        Ok(record) => Ok(Some(record)),
        Err(e) => Err(e),
    }
}

/// A manifest may list between one and `MAX_TOKEN_CHUNKS` chunks for a token.
pub open spec fn valid_chunk_count(n: u16) -> bool {
    1 <= n <= MAX_TOKEN_CHUNKS
}

/// `e` concerns chunk entry `i < count` of a token of a generation.
pub open spec fn names_chunk_entry(e: StorageError, account_id: Seq<char>, generation: Seq<char>,
    field: Seq<char>, count: u16) -> bool {
    exists|i: u16| i < count && #[trigger] names_entry(e, chatgpt_token_entry(account_id, generation, field, i))
}

/// Joins the chunks read for a token, in order.
pub fn join_chunks(chunks: &Vec<String>) -> (token: String)
    ensures
        token@ == string_views(chunks@).flatten(),
{
    let mut token = String::new();
    for i in 0..chunks.len()
        invariant
            token@ == string_views(chunks@.take(i as int)).flatten(),
    {
        proof {
            assert(string_views(chunks@.take(i + 1)) =~= string_views(chunks@.take(i as int)).push(chunks@[i as int]@));
            string_views(chunks@.take(i as int)).lemma_flatten_push(chunks@[i as int]@);
        }
        token.append(chunks[i].as_str());
    }
    assert(chunks@.take(chunks@.len() as int) =~= chunks@);
    token
}

/// `reads` read chunk entries `0, 1, ..., count - 1` of a token of a generation, in that
/// order, and each was found.
pub open spec fn reads_chunks_in_order(reads: Seq<EntryRead>, account_id: Seq<char>, generation: Seq<char>,
    field: Seq<char>, count: u16) -> bool {
    &&& reads.len() == count
    &&& forall|k: int| 0 <= k < reads.len() ==> (#[trigger] reads[k]).entry()
        == chatgpt_token_entry(account_id, generation, field, k as u16) && reads[k].value() is Some
}

/// The values found by reads that each found one, in order.
pub fn read_values(reads: &Vec<EntryRead>) -> (values: Vec<String>)
    requires
        forall|k: int| 0 <= k < reads@.len() ==> (#[trigger] reads@[k]).value() is Some,
    ensures
        values@.len() == reads@.len(),
        forall|k: int| 0 <= k < reads@.len() ==> Some((#[trigger] values@[k])@) == reads@[k].value(),
        string_views(values@) == values_read(reads@),
{
    let mut values: Vec<String> = Vec::new();
    for i in 0..reads.len()
        invariant
            values@.len() == i,
            forall|k: int| 0 <= k < reads@.len() ==> (#[trigger] reads@[k]).value() is Some,
            forall|k: int| 0 <= k < i ==> Some((#[trigger] values@[k])@) == reads@[k].value(),
    {
        let value = match reads[i].value_copy() {
            Some(v) => v,
            None => String::new(),
        };
        values.push(value);
    }
    assert(string_views(values@) =~= values_read(reads@));
    values
}

/// Reads the chunks of one token of a generation, in order: chunk entries `0, 1, ...`,
/// each of which must be there.
pub fn read_token_chunks(account_id: &str, generation_id: &str, field: &str, chunk_count: u16)
    -> (r: Result<Vec<EntryRead>, StorageError>)
    ensures
        r matches Ok(reads) ==> reads_chunks_in_order(reads@, account_id@, generation_id@, field@, chunk_count),
        r matches Err(StorageError::InvalidChunkCount { field: f, account_id: a }) ==> f@ == field@
            && a@ == account_id@ && !valid_chunk_count(chunk_count),
        !valid_chunk_count(chunk_count) <==> (r matches Err(StorageError::InvalidChunkCount { field: f, account_id: a })
            && f@ == field@ && a@ == account_id@),
        r matches Err(StorageError::MissingChunk { entry }) ==> exists|i: u16| i < chunk_count
            && entry@ == #[trigger] chatgpt_token_entry(account_id@, generation_id@, field@, i),
        r matches Err(e) ==> e is InvalidChunkCount || e is MissingChunk
            || names_chunk_entry(e, account_id@, generation_id@, field@, chunk_count),
{
    if chunk_count == 0 || chunk_count > MAX_TOKEN_CHUNKS {
        return Err(StorageError::InvalidChunkCount {
            field: String::from_str(field),
            account_id: String::from_str(account_id),
        });
    }
    let mut reads: Vec<EntryRead> = Vec::new();
    for chunk_index in 0..chunk_count
        invariant
            valid_chunk_count(chunk_count),
            reads_chunks_in_order(reads@, account_id@, generation_id@, field@, chunk_index),
    {
        let entry_name = chatgpt_token_entry_name(account_id, generation_id, field, chunk_index);
        let read = match read_keyring_entry(entry_name.as_str()) {
            Ok(read) => read,
            Err(e) => {
                assert(names_entry(e, chatgpt_token_entry(account_id@, generation_id@, field@, chunk_index)));
                return Err(e);
            },
        };
        if read.is_missing() {
            return Err(StorageError::MissingChunk { entry: entry_name });
        }
        reads.push(read);
    }
    Ok(reads)
}

/// The tokens of a generation, from the chunks read for each of them: each token is its
/// chunks joined in order; the account id is not kept in a generation.
pub fn tokens_from_chunks(id_token: &Vec<String>, access_token: &Vec<String>, refresh_token: &Vec<String>)
    -> (t: TokenData)
    ensures
        t.id_token@ == string_views(id_token@).flatten(),
        t.access_token@ == string_views(access_token@).flatten(),
        t.refresh_token@ == string_views(refresh_token@).flatten(),
        t.account_id is None,
{
    TokenData {
        id_token: join_chunks(id_token),
        access_token: join_chunks(access_token),
        refresh_token: join_chunks(refresh_token),
        account_id: None,
    }
}

/// The reads of a generation's chunk entries, each token's chunks in order.
#[derive(Debug)]
pub struct GenerationReads {
    pub id_token: Vec<EntryRead>,
    pub access_token: Vec<EntryRead>,
    pub refresh_token: Vec<EntryRead>,
}

/// `r` read the chunk entries of generation `g` of the account: for each token, its chunk
/// entries `0, 1, ...`, as many as `g` counts for it (a count a manifest may list), in that
/// order, each found.
pub open spec fn reads_generation(r: GenerationReads, account_id: Seq<char>, g: CredentialGeneration) -> bool {
    &&& valid_chunk_count(g.id_token_chunks)
    &&& valid_chunk_count(g.access_token_chunks)
    &&& valid_chunk_count(g.refresh_token_chunks)
    &&& reads_chunks_in_order(r.id_token@, account_id, g.id@, ID_TOKEN_FIELD@, g.id_token_chunks)
    &&& reads_chunks_in_order(r.access_token@, account_id, g.id@, ACCESS_TOKEN_FIELD@, g.access_token_chunks)
    &&& reads_chunks_in_order(r.refresh_token@, account_id, g.id@, REFRESH_TOKEN_FIELD@, g.refresh_token_chunks)
}

/// Each token of `t` is what the reads of its chunks found, joined in the order read.
pub open spec fn joins_reads(t: TokenData, r: GenerationReads) -> bool {
    &&& t.id_token@ == values_read(r.id_token@).flatten()
    &&& t.access_token@ == values_read(r.access_token@).flatten()
    &&& t.refresh_token@ == values_read(r.refresh_token@).flatten()
}

/// Reads the tokens of a manifest's active generation: each token is its chunks, read from
/// chunk entries `0, 1, ...` of the generation and joined in that order.
pub fn read_chatgpt_generation(account_id: &str, manifest: &CredentialManifest)
    -> (r: Result<(TokenData, GenerationReads), StorageError>)
    ensures
        r matches Ok((t, reads)) ==> t.account_id is None
            && reads_generation(reads, account_id@, manifest.active_generation)
            && joins_reads(t, reads),
        r matches Ok(_) ==> valid_chunk_count(manifest.active_generation.id_token_chunks)
            && valid_chunk_count(manifest.active_generation.access_token_chunks)
            && valid_chunk_count(manifest.active_generation.refresh_token_chunks),
        r matches Err(e) ==> credential_store_error(e),
        !valid_chunk_count(manifest.active_generation.id_token_chunks) <==> (r matches Err(
            StorageError::InvalidChunkCount { field: f, account_id: a }) && f@ == ID_TOKEN_FIELD@
            && a@ == account_id@),
{
    proof { lemma_fields_differ(); }
    let generation = &manifest.active_generation;
    let id_reads = read_token_chunks(account_id, generation.id.as_str(), ID_TOKEN_FIELD,
        generation.id_token_chunks)?;
    let access_reads = read_token_chunks(account_id, generation.id.as_str(), ACCESS_TOKEN_FIELD,
        generation.access_token_chunks)?;
    let refresh_reads = read_token_chunks(account_id, generation.id.as_str(), REFRESH_TOKEN_FIELD,
        generation.refresh_token_chunks)?;
    let id_token = read_values(&id_reads);
    let access_token = read_values(&access_reads);
    let refresh_token = read_values(&refresh_reads);
    let t = tokens_from_chunks(&id_token, &access_token, &refresh_token);
    Ok((t, GenerationReads { id_token: id_reads, access_token: access_reads, refresh_token: refresh_reads }))
}

proof fn lemma_fields_differ()
    ensures
        ID_TOKEN_FIELD@ != ACCESS_TOKEN_FIELD@,
        ID_TOKEN_FIELD@ != REFRESH_TOKEN_FIELD@,
        ACCESS_TOKEN_FIELD@ != REFRESH_TOKEN_FIELD@,
{
    reveal_strlit("id-token");
    reveal_strlit("access-token");
    reveal_strlit("refresh-token");
    assert(ID_TOKEN_FIELD@.len() != ACCESS_TOKEN_FIELD@.len());
    assert(ID_TOKEN_FIELD@.len() != REFRESH_TOKEN_FIELD@.len());
    assert(ACCESS_TOKEN_FIELD@[0] != REFRESH_TOKEN_FIELD@[0]);
}

/// Reads an account's ChatGPT tokens, and whether they were in the single-entry form of earlier versions.
/// Tokens in the current form are each joined from their chunks, read from chunk entries
/// `0, 1, ...` of one generation of the account, in that order.
pub fn read_chatgpt_tokens_from_keyring(account_id: &str) -> (r: Result<Option<(TokenData, bool)>, StorageError>)
    ensures
        r matches Ok(Some((t, false))) ==> t.account_id is None,
        r matches Ok(Some((t, false))) ==> exists|g: CredentialGeneration, reads: GenerationReads|
            #[trigger] reads_generation(reads, account_id@, g) && joins_reads(t, reads),
        r matches Err(e) ==> credential_store_error(e),
{
    let record = read_chatgpt_keyring_record(account_id)?;
    let ghost read_record = record;
    let r = tokens_for_record(account_id, record);
    let ghost found = r;
    proof {
        if let Some(ChatGptKeyringRecord::Current(m)) = read_record {
            if let Ok(Some((t, _))) = found {
                let reads = choose|reads: GenerationReads| reads_generation(reads, account_id@, m.active_generation)
                    && #[trigger] joins_reads(t, reads);
                assert(reads_generation(reads, account_id@, m.active_generation));
            }
        }
    }
    r
}

/// The tokens a record holds: a legacy record's own, the active generation's (read from
/// its chunks) for a manifest, none where there is no record; the flag tells legacy ones.
pub fn tokens_for_record(account_id: &str, record: Option<ChatGptKeyringRecord>)
    -> (r: Result<Option<(TokenData, bool)>, StorageError>)
    ensures
        record is None ==> r == Ok::<Option<(TokenData, bool)>, StorageError>(None),
        record matches Some(ChatGptKeyringRecord::Legacy(t)) ==> r == Ok::<Option<(TokenData, bool)>,
            StorageError>(Some((t, true))),
        record matches Some(ChatGptKeyringRecord::Current(m)) ==> {
            &&& r matches Ok(found) ==> (found matches Some((t, false)) && t.account_id is None)
            &&& r matches Ok(Some((t, _))) ==> exists|reads: GenerationReads|
                reads_generation(reads, account_id@, m.active_generation) && #[trigger] joins_reads(t, reads)
            &&& r matches Err(e) ==> credential_store_error(e)
            &&& !valid_chunk_count(m.active_generation.id_token_chunks) ==> (r matches Err(
                StorageError::InvalidChunkCount { field: f, account_id: a }) && f@ == ID_TOKEN_FIELD@
                && a@ == account_id@)
        },
{
    match record {
        Some(ChatGptKeyringRecord::Current(manifest)) => {
            match read_chatgpt_generation(account_id, &manifest) {
                Ok((tokens, reads)) => {
                    assert(joins_reads(tokens, reads));
                    Ok(Some((tokens, false)))
                },
                Err(e) => Err(e),
            }
        },
        Some(ChatGptKeyringRecord::Legacy(tokens)) => Ok(Some((tokens, true))),
        None => Ok(None),
    }
}

/// The two sets of tokens hold the same three tokens (the account id is not compared).
pub open spec fn same_tokens(left: TokenData, right: TokenData) -> bool {
    &&& left.id_token@ == right.id_token@
    &&& left.access_token@ == right.access_token@
    &&& left.refresh_token@ == right.refresh_token@
}

pub fn tokens_match(left: &TokenData, right: &TokenData) -> (b: bool)
    ensures
        b == same_tokens(*left, *right),
{
    left.id_token == right.id_token && left.access_token == right.access_token
        && left.refresh_token == right.refresh_token
}

/// `e` concerns one of the chunk entries of generation `g`.
pub open spec fn names_generation_entry(e: StorageError, account_id: Seq<char>, g: CredentialGeneration) -> bool {
    ||| names_chunk_entry(e, account_id, g.id@, ID_TOKEN_FIELD@, g.id_token_chunks)
    ||| names_chunk_entry(e, account_id, g.id@, ACCESS_TOKEN_FIELD@, g.access_token_chunks)
    ||| names_chunk_entry(e, account_id, g.id@, REFRESH_TOKEN_FIELD@, g.refresh_token_chunks)
}

/// The first failure among the outcomes of a series of deletions, or success where none failed.
pub open spec fn first_failure(outcomes: Seq<Result<(), StorageError>>) -> Result<(), StorageError>
    decreases outcomes.len(),
{
    if outcomes.len() == 0 {
        Ok(())
    } else if outcomes[0] is Err {
        outcomes[0]
    } else {
        first_failure(outcomes.drop_first())
    }
}

proof fn lemma_first_failure_prefix(outcomes: Seq<Result<(), StorageError>>, i: int)
    requires
        0 <= i <= outcomes.len(),
        forall|k: int| 0 <= k < i ==> (#[trigger] outcomes[k]) is Ok,
    ensures
        first_failure(outcomes) == first_failure(outcomes.skip(i)),
    decreases i,
{
    if i > 0 {
        assert(outcomes[0] is Ok);
        assert forall|k: int| 0 <= k < i - 1 implies (#[trigger] outcomes.drop_first()[k]) is Ok by {
            assert(outcomes.drop_first()[k] == outcomes[k + 1]);
        }
        lemma_first_failure_prefix(outcomes.drop_first(), i - 1);
        assert(outcomes.drop_first().skip(i - 1) =~= outcomes.skip(i));
    } else {
        assert(outcomes.skip(0) =~= outcomes);
    }
}

/// The first failure among the outcomes of a series of deletions (`Ok` where none failed).
pub fn first_failure_of(outcomes: Vec<Result<(), StorageError>>) -> (r: Result<(), StorageError>)
    ensures
        r == first_failure(outcomes@),
{
    let mut i: usize = 0;
    while i < outcomes.len()
        invariant
            i <= outcomes@.len(),
            forall|k: int| 0 <= k < i ==> (#[trigger] outcomes@[k]) is Ok,
        decreases outcomes@.len() - i,
    {
        if outcomes[i].is_err() {
            proof {
                lemma_first_failure_prefix(outcomes@, i as int);
                assert(outcomes@.skip(i as int)[0] == outcomes@[i as int]);
            }
            let mut rest = outcomes;
            return rest.swap_remove(i);
        }
        i = i + 1;
    }
    proof {
        lemma_first_failure_prefix(outcomes@, i as int);
        assert(outcomes@.skip(i as int).len() == 0);
    }
    Ok(())
}

/// The outcome `o` of deleting one entry: success, or a failure that names the entry.
pub open spec fn deletion_outcome(o: Result<(), StorageError>, entry: Seq<char>) -> bool {
    o matches Err(e) ==> names_entry(e, entry) && credential_store_error(e)
}

/// The chunk entries of a generation: those of its id token, then of its access token, then
/// of its refresh token, each in chunk order.
pub open spec fn generation_entry_names(account_id: Seq<char>, g: CredentialGeneration) -> Seq<Seq<char>> {
    chunk_entry_names(account_id, g.id@, ID_TOKEN_FIELD@, g.id_token_chunks as nat)
        + chunk_entry_names(account_id, g.id@, ACCESS_TOKEN_FIELD@, g.access_token_chunks as nat)
        + chunk_entry_names(account_id, g.id@, REFRESH_TOKEN_FIELD@, g.refresh_token_chunks as nat)
}

/// Appends the names of the first `count` chunk entries of a token to `out`.
fn push_chunk_entry_names(out: &mut Vec<String>, account_id: &str, generation_id: &str, field: &str, count: u16)
    ensures
        string_views(final(out)@) == string_views(old(out)@) + chunk_entry_names(account_id@, generation_id@,
            field@, count as nat),
{
    let ghost start = string_views(out@);
    for i in 0..count
        invariant
            string_views(out@) == start + chunk_entry_names(account_id@, generation_id@, field@, i as nat),
    {
        let name = chatgpt_token_entry_name(account_id, generation_id, field, i);
        let ghost before = out@;
        out.push(name);
        proof {
            assert(string_views(out@) =~= string_views(before).push(name@));
            assert(chunk_entry_names(account_id@, generation_id@, field@, (i + 1) as nat)
                =~= chunk_entry_names(account_id@, generation_id@, field@, i as nat).push(name@));
        }
    }
}

/// The chunk entries of a generation, in the order they are deleted.
pub fn generation_entries(account_id: &str, g: &CredentialGeneration) -> (entries: Vec<String>)
    ensures
        string_views(entries@) == generation_entry_names(account_id@, *g),
{
    let mut entries: Vec<String> = Vec::new();
    proof { assert(string_views(entries@) =~= Seq::<Seq<char>>::empty()); }
    push_chunk_entry_names(&mut entries, account_id, g.id.as_str(), ID_TOKEN_FIELD, g.id_token_chunks);
    push_chunk_entry_names(&mut entries, account_id, g.id.as_str(), ACCESS_TOKEN_FIELD, g.access_token_chunks);
    push_chunk_entry_names(&mut entries, account_id, g.id.as_str(), REFRESH_TOKEN_FIELD, g.refresh_token_chunks);
    assert(string_views(entries@) =~= generation_entry_names(account_id@, *g));
    entries
}

/// Deletes each entry in order, giving the outcome of each deletion.
fn delete_each(entries: &Vec<String>) -> (outcomes: Vec<Result<(), StorageError>>)
    ensures
        outcomes@.len() == entries@.len(),
        forall|k: int| 0 <= k < entries@.len() ==> deletion_outcome(#[trigger] outcomes@[k], entries@[k]@),
{
    let mut outcomes: Vec<Result<(), StorageError>> = Vec::new();
    for k in 0..entries.len()
        invariant
            outcomes@.len() == k,
            forall|j: int| 0 <= j < k ==> deletion_outcome(#[trigger] outcomes@[j], entries@[j]@),
    {
        let outcome = delete_keyring_value(entries[k].as_str());
        outcomes.push(outcome);
    }
    outcomes
}

/// Deletes every chunk entry of a generation (`generation_entries`): all are attempted, and
/// the first failure is reported.
pub fn delete_chatgpt_generation(account_id: &str, generation: &CredentialGeneration) -> (r: Result<(), StorageError>)
    ensures
        r matches Err(e) ==> names_generation_entry(e, account_id@, *generation) && credential_store_error(e),
        generation.id_token_chunks == 0 && generation.access_token_chunks == 0
            && generation.refresh_token_chunks == 0 ==> r is Ok,
{
    let entries = generation_entries(account_id, generation);
    let outcomes = delete_each(&entries);
    let ghost all = outcomes@;
    let ghost g = *generation;
    proof {
        let names = generation_entry_names(account_id@, g);
        let n1 = g.id_token_chunks as int;
        let n2 = g.access_token_chunks as int;
        assert(string_views(entries@).len() == entries@.len());
        assert(names.len() == n1 + n2 + g.refresh_token_chunks as int);
        assert forall|k: int| 0 <= k < all.len() && (#[trigger] all[k]) is Err implies
            names_generation_entry(all[k]->Err_0, account_id@, g) && credential_store_error(all[k]->Err_0) by {
            assert(entries@[k]@ == string_views(entries@)[k]);
            let e = all[k]->Err_0;
            assert(names_entry(e, names[k]));
            if k < n1 {
                let i = k as u16;
                assert(names[k] == chatgpt_token_entry(account_id@, g.id@, ID_TOKEN_FIELD@, i));
            } else if k < n1 + n2 {
                let i = (k - n1) as u16;
                assert(names[k] == chatgpt_token_entry(account_id@, g.id@, ACCESS_TOKEN_FIELD@, i));
            } else {
                let i = (k - n1 - n2) as u16;
                let ab = chunk_entry_names(account_id@, g.id@, ID_TOKEN_FIELD@, g.id_token_chunks as nat)
                    + chunk_entry_names(account_id@, g.id@, ACCESS_TOKEN_FIELD@, g.access_token_chunks as nat);
                let c = chunk_entry_names(account_id@, g.id@, REFRESH_TOKEN_FIELD@, g.refresh_token_chunks as nat);
                assert(ab.len() == n1 + n2);
                assert(names == ab + c);
                assert(names[k] == c[k - n1 - n2]);
                assert(names[k] == chatgpt_token_entry(account_id@, g.id@, REFRESH_TOKEN_FIELD@, i));
                assert(names_entry(e, chatgpt_token_entry(account_id@, g.id@, REFRESH_TOKEN_FIELD@, i)));
            }
        }
        lemma_first_failure_is_one_of(all);
        if all.len() == 0 {
            assert(first_failure(all) is Ok);
        }
    }
    first_failure_of(outcomes)
}

proof fn lemma_first_failure_is_one_of(outcomes: Seq<Result<(), StorageError>>)
    ensures
        first_failure(outcomes) is Err ==> exists|k: int| 0 <= k < outcomes.len()
            && #[trigger] outcomes[k] == first_failure(outcomes),
    decreases outcomes.len(),
{
    if outcomes.len() > 0 && !(outcomes[0] is Err) {
        lemma_first_failure_is_one_of(outcomes.drop_first());
        if first_failure(outcomes) is Err {
            let k = choose|k: int| 0 <= k < outcomes.drop_first().len()
                && #[trigger] outcomes.drop_first()[k] == first_failure(outcomes.drop_first());
            assert(outcomes[k + 1] == first_failure(outcomes));
        }
    }
}

/// The names of the first `k` chunk entries of a token of a generation.
pub open spec fn chunk_entry_names(account_id: Seq<char>, generation: Seq<char>, field: Seq<char>, k: nat)
    -> Seq<Seq<char>> {
    Seq::new(k, |i: int| chatgpt_token_entry(account_id, generation, field, i as u16))
}

/// The writes that store a token's chunks: chunk `k`, as the value, under chunk entry `k`.
pub fn chunk_writes(account_id: &str, generation: &str, field: &str, chunks: &Vec<String>)
    -> (writes: Vec<(String, String)>)
    requires
        chunks@.len() <= 65535,
    ensures
        writes@.len() == chunks@.len(),
        forall|k: int| 0 <= k < chunks@.len() ==> (#[trigger] writes@[k]).0@
            == chatgpt_token_entry(account_id@, generation@, field@, k as u16) && writes@[k].1@ == chunks@[k]@,
{
    let mut writes: Vec<(String, String)> = Vec::new();
    for k in 0..chunks.len()
        invariant
            chunks@.len() <= 65535,
            writes@.len() == k,
            forall|j: int| 0 <= j < k ==> (#[trigger] writes@[j]).0@
                == chatgpt_token_entry(account_id@, generation@, field@, j as u16) && writes@[j].1@ == chunks@[j]@,
    {
        let name = chatgpt_token_entry_name(account_id, generation, field, k as u16);
        writes.push((name, chunks[k].clone()));
    }
    writes
}

/// What a series of writes handed to the credential store: entry and value of each, in order.
pub open spec fn write_views(ws: Seq<EntryWrite>) -> Seq<(Seq<char>, Seq<char>)> {
    ws.map_values(|w: EntryWrite| (w.entry(), w.value()))
}

/// Chunk `k` of `chunks` under chunk entry `k` of a token of a generation, for each `k`.
pub open spec fn chunk_pairs(account_id: Seq<char>, generation: Seq<char>, field: Seq<char>, chunks: Seq<Seq<char>>)
    -> Seq<(Seq<char>, Seq<char>)> {
    Seq::new(chunks.len(), |k: int| (chatgpt_token_entry(account_id, generation, field, k as u16), chunks[k]))
}

/// `writes` store `value` as a token of a generation: its greedy chunks, chunk `k` under
/// chunk entry `k`.
pub open spec fn stores_token(writes: Seq<(Seq<char>, Seq<char>)>, account_id: Seq<char>, generation: Seq<char>,
    field: Seq<char>, value: Seq<char>) -> bool {
    exists|chunks: Seq<Seq<char>>| #[trigger] is_greedy_split(value, chunks)
        && writes == chunk_pairs(account_id, generation, field, chunks)
}

/// Whatever value was stored as a token, reading its chunk entries `0, 1, ...` in order and
/// joining what they hold gives that value back.
pub proof fn law_stored_token_reads_back(writes: Seq<(Seq<char>, Seq<char>)>, account_id: Seq<char>,
    generation: Seq<char>, field: Seq<char>, value: Seq<char>)
    requires
        stores_token(writes, account_id, generation, field, value),
    ensures
        forall|k: int| 0 <= k < writes.len() ==> (#[trigger] writes[k]).0 == chatgpt_token_entry(account_id,
            generation, field, k as u16),
        writes.map_values(|w: (Seq<char>, Seq<char>)| w.1).flatten() == value,
{
    reveal(is_greedy_split);
    let chunks = choose|chunks: Seq<Seq<char>>| #[trigger] is_greedy_split(value, chunks)
        && writes == chunk_pairs(account_id, generation, field, chunks);
    assert(writes.map_values(|w: (Seq<char>, Seq<char>)| w.1) =~= chunks);
}

/// Splits a token into chunks and stores each under its own entry (the writes of
/// `chunk_writes`, in order), recording each entry name in `written_entries` once it is
/// written; gives the number of chunks.
pub fn write_chatgpt_token_chunks(account_id: &str, generation: &str, field: &str, value: &str,
    written_entries: &mut Vec<String>) -> (r: Result<Vec<EntryWrite>, StorageError>)
    ensures
        exists|chunks: Seq<Seq<char>>| #[trigger] is_greedy_split(value@, chunks) && {
            let n = chunks.len();
            &&& n >= 1
            &&& r matches Ok(ws) ==> write_views(ws@) == chunk_pairs(account_id@, generation@, field@, chunks)
            &&& n > 65535 ==> (r matches Err(StorageError::TooManyChunks)) && final(written_entries)@ == old(written_entries)@
            &&& 64 < n <= 65535 ==> (r matches Err(StorageError::TokenTooLarge))
                && final(written_entries)@ == old(written_entries)@
            &&& n <= 64 ==> (r matches Ok(ws) ==> ws@.len() == n && string_views(final(written_entries)@)
                == string_views(old(written_entries)@) + chunk_entry_names(account_id@, generation@, field@, n))
            &&& n <= 64 ==> (r matches Err(e) ==> exists|k: nat| k < n && string_views(final(written_entries)@)
                == string_views(old(written_entries)@) + chunk_entry_names(account_id@, generation@, field@, k)
                && names_entry(e, #[trigger] chatgpt_token_entry(account_id@, generation@, field@, k as u16)))
        },
{
    let chunks = split_keyring_value(value);
    let ghost views = string_views(chunks@);
    proof { reveal(is_greedy_split); }
    if chunks.len() > 65535 {
        return Err(StorageError::TooManyChunks);
    }
    let chunk_count = chunks.len() as u16;
    if chunk_count > MAX_TOKEN_CHUNKS {
        return Err(StorageError::TokenTooLarge);
    }
    let writes = chunk_writes(account_id, generation, field, &chunks);
    let ghost start = string_views(written_entries@);
    let mut done: Vec<EntryWrite> = Vec::new();
    for chunk_index in 0..chunks.len()
        invariant
            write_views(done@) == chunk_pairs(account_id@, generation@, field@, views.take(chunk_index as int)),
            chunks@.len() <= 64,
            writes@.len() == chunks@.len(),
            forall|k: int| 0 <= k < chunks@.len() ==> (#[trigger] writes@[k]).0@
                == chatgpt_token_entry(account_id@, generation@, field@, k as u16) && writes@[k].1@ == chunks@[k]@,
            string_views(written_entries@) == start + chunk_entry_names(account_id@, generation@, field@,
                chunk_index as nat),
            views == string_views(chunks@),
            start == string_views(old(written_entries)@),
            is_greedy_split(value@, views),
    {
        let entry_name = writes[chunk_index].0.clone();
        assert(entry_name@ == chatgpt_token_entry(account_id@, generation@, field@, chunk_index as u16));
        let written = match write_keyring_value(entry_name.as_str(), writes[chunk_index].1.as_str()) {
            Ok(written) => written,
            Err(e) => {
                assert(names_entry(e, chatgpt_token_entry(account_id@, generation@, field@,
                    (chunk_index as nat) as u16)));
                return Err(e);
            },
        };
        proof {
            assert(views[chunk_index as int] == chunks@[chunk_index as int]@);
            assert(write_views(done@.push(written)) =~= write_views(done@).push((written.entry(), written.value())));
            assert(chunk_pairs(account_id@, generation@, field@, views.take(chunk_index + 1))
                =~= chunk_pairs(account_id@, generation@, field@, views.take(chunk_index as int)).push(
                (chatgpt_token_entry(account_id@, generation@, field@, chunk_index as u16), views[chunk_index as int])));
        }
        done.push(written);
        proof {
            assert(chunk_entry_names(account_id@, generation@, field@, (chunk_index + 1) as nat)
                =~= chunk_entry_names(account_id@, generation@, field@, chunk_index as nat).push(entry_name@));
        }
        let ghost before = written_entries@;
        let ghost pushed = entry_name@;
        written_entries.push(entry_name);
        proof {
            assert(string_views(written_entries@) =~= string_views(before).push(pushed));
            assert(string_views(written_entries@) =~= start + chunk_entry_names(account_id@, generation@, field@,
                (chunk_index + 1) as nat));
        }
    }
    assert(views.take(views.len() as int) =~= views);
    Ok(done)
}

/// `value` splits greedily into `n` chunks.
pub open spec fn splits_into(value: Seq<char>, n: nat) -> bool {
    exists|chunks: Seq<Seq<char>>| #[trigger] is_greedy_split(value, chunks) && chunks.len() == n
}

/// `value` splits greedily into more than `n` chunks.
pub open spec fn splits_over(value: Seq<char>, n: nat) -> bool {
    exists|chunks: Seq<Seq<char>>| #[trigger] is_greedy_split(value, chunks) && chunks.len() > n
}

/// A token is refused for its size only where it is too large: `TooManyChunks` where one
/// splits into more chunks than a `u16` counts, `TokenTooLarge` where one splits into more
/// than `MAX_TOKEN_CHUNKS`.
pub open spec fn size_refusal_justified(e: StorageError, tokens: TokenData) -> bool {
    &&& e is TooManyChunks ==> splits_over(tokens.id_token@, 65535) || splits_over(tokens.access_token@, 65535)
        || splits_over(tokens.refresh_token@, 65535)
    &&& e is TokenTooLarge ==> splits_over(tokens.id_token@, 64) || splits_over(tokens.access_token@, 64)
        || splits_over(tokens.refresh_token@, 64)
}

/// The writes that stored the three tokens of a generation, each token's chunks in order.
#[derive(Debug)]
pub struct GenerationWrites {
    pub id_token: Vec<EntryWrite>,
    pub access_token: Vec<EntryWrite>,
    pub refresh_token: Vec<EntryWrite>,
}

/// `w` stored the tokens of `t` as generation `g`: each token under that generation's chunk
/// entries of its field, as many chunks as `g` counts for it.
pub open spec fn stores_generation(w: GenerationWrites, account_id: Seq<char>, g: CredentialGeneration, t: TokenData)
    -> bool {
    &&& stores_token(write_views(w.id_token@), account_id, g.id@, ID_TOKEN_FIELD@, t.id_token@)
    &&& stores_token(write_views(w.access_token@), account_id, g.id@, ACCESS_TOKEN_FIELD@, t.access_token@)
    &&& stores_token(write_views(w.refresh_token@), account_id, g.id@, REFRESH_TOKEN_FIELD@, t.refresh_token@)
    &&& w.id_token@.len() == g.id_token_chunks
    &&& w.access_token@.len() == g.access_token_chunks
    &&& w.refresh_token@.len() == g.refresh_token_chunks
}

/// Stores the three tokens of a new generation, recording every entry written.
fn write_generation(account_id: &str, generation_id: String, tokens: &TokenData,
    written_entries: &mut Vec<String>) -> (r: Result<(CredentialGeneration, GenerationWrites), StorageError>)
    ensures
        r matches Ok((g, w)) ==> g.id == generation_id
            && splits_into(tokens.id_token@, g.id_token_chunks as nat)
            && splits_into(tokens.access_token@, g.access_token_chunks as nat)
            && splits_into(tokens.refresh_token@, g.refresh_token_chunks as nat)
            && valid_chunk_count(g.id_token_chunks) && valid_chunk_count(g.access_token_chunks)
            && valid_chunk_count(g.refresh_token_chunks)
            && stores_generation(w, account_id@, g, *tokens),
        r matches Err(e) ==> (credential_store_error(e) || size_error(e)) && size_refusal_justified(e, *tokens),
{
    let id_token = match write_chatgpt_token_chunks(account_id, generation_id.as_str(), ID_TOKEN_FIELD,
        tokens.id_token.as_str(), written_entries) {
        Ok(ws) => ws,
        Err(e) => { return Err(e); },
    };
    let access_token = match write_chatgpt_token_chunks(account_id, generation_id.as_str(),
        ACCESS_TOKEN_FIELD, tokens.access_token.as_str(), written_entries) {
        Ok(ws) => ws,
        Err(e) => { return Err(e); },
    };
    let refresh_token = match write_chatgpt_token_chunks(account_id, generation_id.as_str(),
        REFRESH_TOKEN_FIELD, tokens.refresh_token.as_str(), written_entries) {
        Ok(ws) => ws,
        Err(e) => { return Err(e); },
    };
    let g = CredentialGeneration {
        id: generation_id,
        id_token_chunks: id_token.len() as u16,
        access_token_chunks: access_token.len() as u16,
        refresh_token_chunks: refresh_token.len() as u16,
    };
    Ok((g, GenerationWrites { id_token, access_token, refresh_token }))
}

/// `x` is one of the first `t` generations of `gs`.
pub open spec fn among_first(gs: Seq<CredentialGeneration>, t: int, x: CredentialGeneration) -> bool {
    exists|i: int| 0 <= i < t && gs[i] == x
}

/// The generations of `gs` whose deletion failed (`failed`), in order.
pub open spec fn kept_where(gs: Seq<CredentialGeneration>, failed: Seq<bool>) -> Seq<CredentialGeneration>
    decreases gs.len(),
{
    if gs.len() == 0 {
        Seq::empty()
    } else {
        let rest = kept_where(gs.drop_last(), failed.take(gs.len() - 1));
        if failed[gs.len() - 1] { rest.push(gs.last()) } else { rest }
    }
}

/// Keeps, in order, the generations whose deletion failed.
pub fn keep_failed(generations: &Vec<CredentialGeneration>, failed: &Vec<bool>) -> (kept: Vec<CredentialGeneration>)
    requires
        failed@.len() == generations@.len(),
    ensures
        kept@ == kept_where(generations@, failed@),
        kept@.len() <= generations@.len(),
        forall|k: int| 0 <= k < kept@.len() ==> #[trigger] lists(generations@, kept@[k]),
        strictly_sorted_by_id(generations@) ==> strictly_sorted_by_id(kept@),
{
    let mut kept: Vec<CredentialGeneration> = Vec::new();
    let mut t: usize = 0;
    while t < generations.len()
        invariant
            t <= generations@.len(),
            kept@.len() <= t,
            forall|k: int| 0 <= k < kept@.len() ==> #[trigger] among_first(generations@, t as int, kept@[k]),
            strictly_sorted_by_id(generations@) ==> strictly_sorted_by_id(kept@),
            failed@.len() == generations@.len(),
            kept@ == kept_where(generations@.take(t as int), failed@.take(t as int)),
        decreases generations@.len() - t,
    {
        let ghost before = kept@;
        proof {
            let g1 = generations@.take(t + 1);
            assert(g1.drop_last() =~= generations@.take(t as int));
            assert(failed@.take(t + 1).take(t as int) =~= failed@.take(t as int));
        }
        if failed[t] {
            kept.push(generations[t].copy());
            proof {
                if strictly_sorted_by_id(generations@) {
                    assert forall|a: int, b: int| 0 <= a < b < kept@.len() implies
                        id_less(#[trigger] kept@[a].id@, #[trigger] kept@[b].id@) by {
                        assert(kept@[a] == before[a]);
                        if b < before.len() {
                            assert(kept@[b] == before[b]);
                        } else {
                            assert(among_first(generations@, t as int, before[a]));
                            let i = choose|i: int| 0 <= i < t && generations@[i] == before[a];
                            assert(id_less(generations@[i].id@, generations@[t as int].id@));
                        }
                    }
                }
            }
        }
        proof {
            assert forall|k: int| 0 <= k < kept@.len() implies #[trigger] among_first(generations@, t + 1, kept@[k]) by {
                if k < before.len() {
                    assert(kept@[k] == before[k]);
                    assert(among_first(generations@, t as int, before[k]));
                    let i = choose|i: int| 0 <= i < t && generations@[i] == before[k];
                    assert(0 <= i < t + 1 && generations@[i] == kept@[k]);
                } else {
                    assert(kept@[k] == generations@[t as int]);
                }
            }
        }
        t = t + 1;
    }
    proof {
        assert(generations@.take(t as int) =~= generations@);
        assert(failed@.take(t as int) =~= failed@);
        assert forall|k: int| 0 <= k < kept@.len() implies #[trigger] lists(generations@, kept@[k]) by {
            assert(among_first(generations@, t as int, kept@[k]));
            let i = choose|i: int| 0 <= i < t && generations@[i] == kept@[k];
            assert(generations@[i] == kept@[k]);
        }
    }
    kept
}

/// Tries to delete each generation; gives back, in order, those that could not be deleted.
fn retain_undeleted(account_id: &str, generations: &Vec<CredentialGeneration>) -> (kept: Vec<CredentialGeneration>)
    ensures
        kept@.len() <= generations@.len(),
        forall|k: int| 0 <= k < kept@.len() ==> #[trigger] lists(generations@, kept@[k]),
        strictly_sorted_by_id(generations@) ==> strictly_sorted_by_id(kept@),
{
    let mut failed: Vec<bool> = Vec::new();
    for t in 0..generations.len()
        invariant
            failed@.len() == t,
    {
        failed.push(delete_chatgpt_generation(account_id, &generations[t]).is_err());
    }
    keep_failed(generations, &failed)
}

/// The manifest that makes `generation` the active one: version 1, listing as stale what the
/// current manifest listed, stale and active, ordered by id with each id once.
pub fn plan_manifest(generation: CredentialGeneration, current: &Option<ChatGptKeyringRecord>)
    -> (m: CredentialManifest)
    ensures
        m.version == CHATGPT_CREDENTIAL_VERSION,
        m.active_generation == generation,
        sorted_first_by_id(stale_candidates(*current), m.stale_generations@),
{
    CredentialManifest {
        version: CHATGPT_CREDENTIAL_VERSION,
        active_generation: generation,
        stale_generations: stale_generations_after(current),
    }
}

/// The manifest to write back once stale generations have been deleted: the same one with
/// only the `remaining` stale generations, or none where nothing was deleted.
pub fn cleaned_manifest(manifest: &CredentialManifest, remaining: Vec<CredentialGeneration>)
    -> (r: Option<CredentialManifest>)
    ensures
        remaining@.len() == manifest.stale_generations@.len() ==> r is None,
        remaining@.len() != manifest.stale_generations@.len() ==> r == Some(CredentialManifest {
            version: manifest.version,
            active_generation: manifest.active_generation,
            stale_generations: remaining,
        }),
{
    if remaining.len() == manifest.stale_generations.len() {
        None
    } else {
        Some(CredentialManifest {
            version: manifest.version,
            active_generation: manifest.active_generation.copy(),
            stale_generations: remaining,
        })
    }
}

/// Whether storing `tokens` only needs the stale generations cleaned up: the current record
/// is a manifest whose active generation (read as `existing`) already holds the same tokens.
/// Otherwise a new generation is written.
pub fn reuses_active_generation(current: &Option<ChatGptKeyringRecord>, existing: &Option<TokenData>,
    tokens: &TokenData) -> (reuse: bool)
    ensures
        reuse == (current matches Some(ChatGptKeyringRecord::Current(_)) && existing is Some
            && same_tokens(existing->0, *tokens)),
{
    match (current, existing) {
        (Some(ChatGptKeyringRecord::Current(_)), Some(t)) => tokens_match(t, tokens),
        _ => false,
    }
}

/// Deletes the listed entries, ignoring failures.
fn delete_entries(entries: &Vec<String>) {
    for i in 0..entries.len() {
        let _ = delete_keyring_value(entries[i].as_str());
    }
}

/// How an account's ChatGPT tokens were stored.
#[derive(Debug)]
pub enum TokensStored {
    /// The active generation, whose chunks `reads` read back as `existing`, already held the
    /// same three tokens; it was kept, and only stale generations were cleaned up.
    Kept { existing: TokenData, generation: CredentialGeneration, reads: GenerationReads },
    /// A new generation was written, chunk by chunk, and then the manifest naming it active.
    Written { generation: CredentialGeneration, chunks: GenerationWrites, manifest: EntryWrite },
}

/// `stored` is how `tokens` were stored for the account: kept, where reading the chunks of a
/// generation of the account, in order, gave back the same three tokens; or written as a new
/// generation holding them, named active by the manifest last written to the account's
/// ChatGPT entry.
pub open spec fn tokens_stored(stored: TokensStored, account_id: Seq<char>, tokens: TokenData) -> bool {
    match stored {
        TokensStored::Kept { existing, generation, reads } => {
            &&& reads_generation(reads, account_id, generation)
            &&& joins_reads(existing, reads)
            &&& same_tokens(existing, tokens)
        },
        TokensStored::Written { generation, chunks, manifest } => {
            &&& stores_generation(chunks, account_id, generation, tokens)
            &&& manifest.entry() == chatgpt_manifest_entry(account_id)
            &&& exists|m: CredentialManifest| manifest.value() == #[trigger] encode_manifest(m)
                && m.version == CHATGPT_CREDENTIAL_VERSION && m.active_generation == generation
        },
    }
}

/// Stores an account's ChatGPT tokens as a new generation of chunks and makes it the active
/// one, then removes the generations the manifest lists as stale. Where the active
/// generation already holds these tokens, only the stale generations are cleaned up.
/// A generation whose chunks cannot all be written is removed again, and one whose
/// manifest cannot be written too.
pub fn write_chatgpt_tokens_to_keyring(account_id: &str, tokens: &TokenData) -> (r: Result<TokensStored, StorageError>)
    ensures
        r matches Ok(stored) ==> tokens_stored(stored, account_id@, *tokens),
        r matches Err(e) ==> (credential_store_error(e) || size_error(e)) && size_refusal_justified(e, *tokens),
{
    let current_record = read_chatgpt_keyring_record(account_id)?;
    let manifest_name = chatgpt_manifest_entry_name(account_id);
    let (existing, existing_reads) = match &current_record {
        Some(ChatGptKeyringRecord::Current(manifest)) => {
            let (t, reads) = read_chatgpt_generation(account_id, manifest)?;
            (Some(t), Some(reads))
        },
        _ => (None, None),
    };
    if reuses_active_generation(&current_record, &existing, tokens) {
        if let Some(ChatGptKeyringRecord::Current(manifest)) = &current_record {
            let remaining = retain_undeleted(account_id, &manifest.stale_generations);
            if let Some(cleaned) = cleaned_manifest(manifest, remaining) {
                let payload = manifest_to_json(&cleaned);
                write_keyring_value(manifest_name.as_str(), payload.as_str())?;
            }
            if let (Some(existing), Some(reads)) = (existing, existing_reads) {
                return Ok(TokensStored::Kept { existing, generation: manifest.active_generation.copy(), reads });
            }
        }
    }
    let generation_id = new_uuid();
    let mut written_entries: Vec<String> = Vec::new();
    let (generation, chunks) = match write_generation(account_id, generation_id, tokens, &mut written_entries) {
        Ok(written) => written,
        Err(error) => {
            delete_entries(&written_entries);
            return Err(error);
        },
    };
    let mut manifest = plan_manifest(generation.copy(), &current_record);
    let payload = manifest_to_json(&manifest);
    let mut manifest_write = match write_keyring_value(manifest_name.as_str(), payload.as_str()) {
        Ok(written) => written,
        Err(error) => {
            let _ = delete_chatgpt_generation(account_id, &manifest.active_generation);
            return Err(error);
        },
    };
    assert(encode_manifest(manifest) == manifest_write.value());
    let had_stale_generations = manifest.stale_generations.len() > 0;
    manifest.stale_generations = retain_undeleted(account_id, &manifest.stale_generations);
    if had_stale_generations {
        let payload = manifest_to_json(&manifest);
        manifest_write = write_keyring_value(manifest_name.as_str(), payload.as_str())?;
        assert(encode_manifest(manifest) == manifest_write.value());
    }
    Ok(TokensStored::Written { generation, chunks, manifest: manifest_write })
}

/// Removes every credential entry an account has.
pub fn delete_account_credentials_from_keyring(account: &StoredAccount) -> (r: Result<(), StorageError>)
    ensures
        r matches Err(e) ==> credential_store_error(e),
{
    match &account.auth_data {
        AuthData::ApiKey { .. } => delete_keyring_value(api_key_entry_name(account.id.as_str()).as_str()),
        AuthData::ChatGPT { .. } => {
            let record = read_chatgpt_keyring_record(account.id.as_str())?;
            if record.is_some() {
                let generations = listed_generations(&record);
                for i in 0..generations.len() {
                    delete_chatgpt_generation(account.id.as_str(), &generations[i])?;
                }
                delete_keyring_value(chatgpt_manifest_entry_name(account.id.as_str()).as_str())?;
            }
            Ok(())
        },
    }
}

/// A failure that storing or finding an account's secrets can end in.
pub open spec fn secret_error(e: StorageError) -> bool {
    ||| credential_store_error(e)
    ||| size_error(e)
    ||| e is ApiKeyMissing
    ||| e is ChatGptCredentialsMissing
}

/// Whether a read found a non-empty API key.
pub open spec fn found_key(found: Option<String>) -> bool {
    found matches Some(v) && v@.len() > 0
}

/// What a read of an account's API key comes to: the key where a non-empty one is stored,
/// the read's own failure, and otherwise `ApiKeyMissing`.
pub fn stored_api_key(account_id: &str, read: Result<Option<String>, StorageError>) -> (r: Result<String, StorageError>)
    ensures
        read matches Err(e) ==> r == Err::<String, StorageError>(e),
        read matches Ok(found) ==> if found_key(found) {
            r == Ok::<String, StorageError>(found->0)
        } else {
            r matches Err(StorageError::ApiKeyMissing { account_id: a }) && a@ == account_id@
        },
{
    match read {
        Err(e) => Err(e),
        Ok(Some(key)) => {
            if key.as_str().is_empty() {
                Err(StorageError::ApiKeyMissing { account_id: String::from_str(account_id) })
            } else {
                Ok(key)
            }
        },
        Ok(None) => Err(StorageError::ApiKeyMissing { account_id: String::from_str(account_id) }),
    }
}

/// What a read of an account's ChatGPT tokens comes to: the tokens found (and whether they
/// were in the legacy form), the read's own failure, and otherwise `ChatGptCredentialsMissing`.
pub fn stored_chatgpt_tokens(account_id: &str, read: Result<Option<(TokenData, bool)>, StorageError>)
    -> (r: Result<(TokenData, bool), StorageError>)
    ensures
        read matches Err(e) ==> r == Err::<(TokenData, bool), StorageError>(e),
        read matches Ok(Some(found)) ==> r == Ok::<(TokenData, bool), StorageError>(found),
        read matches Ok(None) ==> (r matches Err(StorageError::ChatGptCredentialsMissing { account_id: a })
            && a@ == account_id@),
{
    match read {
        Err(e) => Err(e),
        Ok(Some(found)) => Ok(found),
        Ok(None) => Err(StorageError::ChatGptCredentialsMissing { account_id: String::from_str(account_id) }),
    }
}

/// Empties an account's secrets once they are known to be in the credential store
/// (`stored` is `Ok`); where storing or finding them failed, passes the failure on and
/// leaves the account as it was.
pub fn clear_when_stored(account: &mut StoredAccount, stored: Result<(), StorageError>) -> (r: Result<(), StorageError>)
    ensures
        stored matches Err(e) ==> r == Err::<(), StorageError>(e) && *final(account) == *old(account),
        stored is Ok ==> r is Ok && same_metadata(*final(account), *old(account))
            && credentials_cleared(old(account).auth_data, final(account).auth_data),
{
    match stored {
        Err(e) => Err(e),
        Ok(()) => {
            let cleared = match &account.auth_data {
                AuthData::ApiKey { .. } => AuthData::ApiKey { key: String::new() },
                AuthData::ChatGPT { account_id, .. } => AuthData::ChatGPT {
                    id_token: String::new(),
                    access_token: String::new(),
                    refresh_token: String::new(),
                    account_id: copy_opt(account_id),
                },
            };
            account.auth_data = cleared;
            Ok(())
        },
    }
}

/// A secret an account holds itself, to be handed to the credential store.
pub enum StoredSecret {
    ApiKey(String),
    Tokens(TokenData),
}

/// The account holds its secret itself: a non-empty API key, or some non-empty token.
pub open spec fn holds_own_secret(auth: AuthData) -> bool {
    match auth {
        AuthData::ApiKey { key } => key@.len() > 0,
        AuthData::ChatGPT { id_token, access_token, refresh_token, .. } => id_token@.len() > 0
            || access_token@.len() > 0 || refresh_token@.len() > 0,
    }
}

/// `secret` is the secret that `auth` holds: its API key, or its three tokens with its
/// ChatGPT account id.
pub open spec fn is_secret_of(secret: StoredSecret, auth: AuthData) -> bool {
    match (secret, auth) {
        (StoredSecret::ApiKey(k), AuthData::ApiKey { key }) => k@ == key@,
        (StoredSecret::Tokens(t), AuthData::ChatGPT { id_token, access_token, refresh_token, account_id }) => {
            &&& t.id_token@ == id_token@
            &&& t.access_token@ == access_token@
            &&& t.refresh_token@ == refresh_token@
            &&& opt_view(t.account_id) == opt_view(account_id)
        },
        _ => false,
    }
}

/// The secret an account holds itself, to be handed to the credential store; none where its
/// credentials are empty.
pub fn secret_of(auth: &AuthData) -> (r: Option<StoredSecret>)
    ensures
        holds_own_secret(*auth) <==> r is Some,
        r matches Some(secret) ==> is_secret_of(secret, *auth),
{
    match auth {
        AuthData::ApiKey { key } => {
            if key.as_str().is_empty() { None } else { Some(StoredSecret::ApiKey(key.clone())) }
        },
        AuthData::ChatGPT { id_token, access_token, refresh_token, account_id } => {
            if id_token.as_str().is_empty() && access_token.as_str().is_empty() && refresh_token.as_str().is_empty() {
                None
            } else {
                Some(StoredSecret::Tokens(TokenData {
                    id_token: id_token.clone(),
                    access_token: access_token.clone(),
                    refresh_token: refresh_token.clone(),
                    account_id: copy_opt(account_id),
                }))
            }
        },
    }
}

/// What saving an account's secret did.
#[derive(Debug)]
pub enum SecretSaved {
    /// The account's API key was written to its API-key entry.
    ApiKey(EntryWrite),
    /// The account's ChatGPT tokens were stored.
    Tokens(TokensStored),
    /// The account held no secret itself, and the credential store has one for it.
    AlreadyStored,
}

/// `saved` stored `secret` for the account: an API key written to the account's API-key
/// entry, or tokens stored as `tokens_stored` says.
pub open spec fn saves_secret(saved: SecretSaved, account_id: Seq<char>, secret: StoredSecret) -> bool {
    match (saved, secret) {
        (SecretSaved::ApiKey(w), StoredSecret::ApiKey(k)) => w.entry() == api_key_entry(account_id) && w.value() == k@,
        (SecretSaved::Tokens(t), StoredSecret::Tokens(tokens)) => tokens_stored(t, account_id, tokens),
        _ => false,
    }
}

/// `saved` stored what the account's credentials `auth` hold: its API key under its API-key
/// entry, or its three tokens as `tokens_stored` says; or, where `auth` holds no secret, the
/// credential store already had one.
pub open spec fn saves_own_secret(saved: SecretSaved, account_id: Seq<char>, auth: AuthData) -> bool {
    match (saved, auth) {
        (SecretSaved::ApiKey(w), AuthData::ApiKey { key }) => key@.len() > 0 && w.entry() == api_key_entry(account_id)
            && w.value() == key@,
        (SecretSaved::Tokens(t), AuthData::ChatGPT { id_token, access_token, refresh_token, account_id: a }) => {
            &&& holds_own_secret(auth)
            &&& tokens_stored(t, account_id, TokenData { id_token, access_token, refresh_token, account_id: a })
        },
        (SecretSaved::AlreadyStored, _) => !holds_own_secret(auth),
        _ => false,
    }
}

/// Hands a secret to the credential store: an API key to the account's API-key entry,
/// tokens as a new generation of chunks (`write_chatgpt_tokens_to_keyring`).
pub fn store_secret(account_id: &str, secret: &StoredSecret) -> (r: Result<SecretSaved, StorageError>)
    ensures
        r matches Ok(saved) ==> saves_secret(saved, account_id@, *secret),
        r matches Err(e) ==> credential_store_error(e) || size_error(e),
        *secret is ApiKey ==> (r matches Err(e) ==> names_entry(e, api_key_entry(account_id@))),
{
    match secret {
        StoredSecret::ApiKey(key) => match write_api_key_to_keyring(account_id, key.as_str()) {
            Ok(w) => Ok(SecretSaved::ApiKey(w)),
            Err(e) => Err(e),
        },
        StoredSecret::Tokens(tokens) => match write_chatgpt_tokens_to_keyring(account_id, tokens) {
            Ok(t) => Ok(SecretSaved::Tokens(t)),
            Err(e) => Err(e),
        },
    }
}

/// The tokens to store again in the current form after they were read in the legacy form:
/// those the account took on (`auth`); none where they were already in the current form.
pub fn legacy_rewrite(auth: &AuthData, used_legacy_format: bool) -> (r: Option<TokenData>)
    ensures
        !used_legacy_format ==> r is None,
        used_legacy_format && auth is ChatGPT ==> (r matches Some(t)
            && is_secret_of(StoredSecret::Tokens(t), *auth)),
        auth is ApiKey ==> r is None,
{
    match auth {
        AuthData::ChatGPT { id_token, access_token, refresh_token, account_id } => {
            if used_legacy_format {
                Some(TokenData {
                    id_token: id_token.clone(),
                    access_token: access_token.clone(),
                    refresh_token: refresh_token.clone(),
                    account_id: copy_opt(account_id),
                })
            } else {
                None
            }
        },
        AuthData::ApiKey { .. } => None,
    }
}

/// The credentials as they are written to disk: the same kind, with every secret emptied
/// and the ChatGPT account id kept.
pub open spec fn credentials_cleared(before: AuthData, after: AuthData) -> bool {
    match (before, after) {
        (AuthData::ApiKey { .. }, AuthData::ApiKey { key }) => key@.len() == 0,
        (AuthData::ChatGPT { account_id: a, .. }, AuthData::ChatGPT { id_token, access_token, refresh_token,
            account_id }) => {
            &&& id_token@.len() == 0
            &&& access_token@.len() == 0
            &&& refresh_token@.len() == 0
            &&& account_id == a
        },
        _ => false,
    }
}

/// The two credentials are of the same kind.
pub open spec fn same_kind(a: AuthData, b: AuthData) -> bool {
    (a is ApiKey) == (b is ApiKey)
}

/// Moves an account's secrets into the credential store and empties them in the account.
/// An account whose secrets are already empty must have them in the store. Where
/// anything fails the account is left as it was, so nothing is written to disk without
/// its secrets being stored.
pub fn persist_account_credentials_to_keyring(account: &mut StoredAccount) -> (r: Result<SecretSaved, StorageError>)
    ensures
        r matches Ok(saved) ==> saves_own_secret(saved, old(account).id@, old(account).auth_data),
        r is Ok ==> same_metadata(*final(account), *old(account))
            && credentials_cleared(old(account).auth_data, final(account).auth_data),
        r is Err ==> *final(account) == *old(account),
        r matches Err(e) ==> secret_error(e),
        r matches Err(StorageError::ApiKeyMissing { account_id: a }) ==> a@ == old(account).id@
            && (old(account).auth_data matches AuthData::ApiKey { key } && key@.len() == 0),
        r matches Err(StorageError::ChatGptCredentialsMissing { account_id: a }) ==> a@ == old(account).id@
            && (old(account).auth_data matches AuthData::ChatGPT { id_token, access_token, refresh_token, .. }
            && id_token@.len() == 0 && access_token@.len() == 0 && refresh_token@.len() == 0),
{
    let credential_id = account.id.clone();
    let saved: Result<SecretSaved, StorageError> = match secret_of(&account.auth_data) {
        Some(secret) => store_secret(credential_id.as_str(), &secret),
        None => match &account.auth_data {
            AuthData::ApiKey { .. } => {
                match stored_api_key(credential_id.as_str(), read_api_key_from_keyring(credential_id.as_str())) {
                    Ok(_) => Ok(SecretSaved::AlreadyStored),
                    Err(e) => Err(e),
                }
            },
            AuthData::ChatGPT { .. } => {
                match stored_chatgpt_tokens(credential_id.as_str(),
                    read_chatgpt_tokens_from_keyring(credential_id.as_str())) {
                    Ok(_) => Ok(SecretSaved::AlreadyStored),
                    Err(e) => Err(e),
                }
            },
        },
    };
    match saved {
        Ok(saved) => {
            let _ = clear_when_stored(account, Ok(()));
            Ok(saved)
        },
        Err(e) => Err(e),
    }
}

/// `auth` holds the tokens read from the credential store, `stored`, with the ChatGPT account
/// id the store names, or else the one the account had, `kept`; `migrated` tells whether the
/// tokens were in the form of earlier versions or the account id changed.
pub open spec fn hydrated_from(kept: Option<String>, stored: TokenData, used_legacy_format: bool, auth: AuthData,
    migrated: bool) -> bool {
    let account_id = match stored.account_id {
        Some(a) => Some(a@),
        None => opt_view(kept),
    };
    &&& chatgpt_auth_is(auth, stored.id_token@, stored.access_token@, stored.refresh_token@, account_id)
    &&& migrated == (used_legacy_format || opt_view(kept) != account_id)
}

/// The credentials an account takes on from the tokens read from the credential store:
/// those tokens, with the ChatGPT account id the store names or else the one the account
/// had (`kept`), and whether the accounts file must be written again.
pub fn apply_stored_tokens(kept: &Option<String>, stored: TokenData, used_legacy_format: bool)
    -> (r: (AuthData, bool))
    ensures
        hydrated_from(*kept, stored, used_legacy_format, r.0, r.1),
{
    let ghost stored_copy = stored;
    let mut migrated = used_legacy_format;
    let account_id = match stored.account_id {
        Some(stored_account_id) => {
            let same = match kept {
                Some(current) => *current == stored_account_id,
                None => false,
            };
            if !same {
                migrated = true;
            }
            Some(stored_account_id)
        },
        None => copy_opt(kept),
    };
    let auth = AuthData::ChatGPT {
        id_token: stored.id_token,
        access_token: stored.access_token,
        refresh_token: stored.refresh_token,
        account_id,
    };
    assert(hydrated_from(*kept, stored_copy, used_legacy_format, auth, migrated));
    (auth, migrated)
}

/// Fills in an account's secrets from the credential store, or, where the file still holds
/// them, moves them into the store. Tells whether the file needs to be written again
/// (it held secrets, the store held tokens in the form of earlier versions, or the stored
/// ChatGPT account id differs).
pub fn hydrate_account_credentials_from_keyring(account: &mut StoredAccount) -> (r: Result<bool, StorageError>)
    ensures
        same_metadata(*final(account), *old(account)),
        same_kind(final(account).auth_data, old(account).auth_data),
        old(account).auth_data matches AuthData::ApiKey { key } && key@.len() > 0 ==> (r matches Ok(migrated)
            ==> migrated && *final(account) == *old(account)),
        old(account).auth_data matches AuthData::ApiKey { key } && key@.len() == 0 ==> (r matches Ok(migrated)
            ==> !migrated && (final(account).auth_data matches AuthData::ApiKey { key } && key@.len() > 0
            && exists|read: EntryRead| read.entry() == api_key_entry(old(account).id@)
                && #[trigger] read.value() == Some(key@))),
        old(account).auth_data matches AuthData::ChatGPT { id_token, access_token, refresh_token, .. }
            && (id_token@.len() > 0 || access_token@.len() > 0 || refresh_token@.len() > 0)
            ==> (r matches Ok(migrated) ==> migrated && *final(account) == *old(account)),
        old(account).auth_data matches AuthData::ChatGPT { account_id: a, .. } && final(account).auth_data matches
            AuthData::ChatGPT { account_id: b, .. } && opt_view(a) != opt_view(b) ==> (r matches Ok(migrated)
            ==> migrated),
        old(account).auth_data matches AuthData::ChatGPT { id_token, access_token, refresh_token, account_id: kept }
            ==> (id_token@.len() == 0 && access_token@.len() == 0 && refresh_token@.len() == 0 ==> (r matches Ok(
            migrated) ==> exists|stored: TokenData, legacy: bool| #[trigger] hydrated_from(kept, stored, legacy,
            final(account).auth_data, migrated))),
        r matches Ok(true) ==> holds_own_secret(old(account).auth_data)
            || chatgpt_account_id_changed(old(account).auth_data, final(account).auth_data)
            || rewrote_tokens(old(account).id@, final(account).auth_data),
        r matches Err(StorageError::ApiKeyMissing { account_id: a }) ==> a@ == old(account).id@,
        r matches Err(StorageError::ChatGptCredentialsMissing { account_id: a }) ==> a@ == old(account).id@,
        r matches Err(e) ==> secret_error(e),
        r is Err ==> *final(account) == *old(account),
{
    let credential_id = account.id.clone();
    if let Some(secret) = secret_of(&account.auth_data) {
        store_secret(credential_id.as_str(), &secret)?;
        return Ok(true);
    }
    match &account.auth_data {
        AuthData::ApiKey { .. } => {
            let read = read_keyring_entry(api_key_entry_name(credential_id.as_str()).as_str())?;
            let stored_key = stored_api_key(credential_id.as_str(), Ok(read.value_copy()))?;
            assert(read.value() == Some(stored_key@));
            account.auth_data = AuthData::ApiKey { key: stored_key };
            Ok(false)
        },
        AuthData::ChatGPT { account_id, .. } => {
            let (stored_tokens, used_legacy_format) = stored_chatgpt_tokens(credential_id.as_str(),
                read_chatgpt_tokens_from_keyring(credential_id.as_str()))?;
            let ghost stored_copy = stored_tokens;
            let ghost kept = *account_id;
            let (auth, migrated) = apply_stored_tokens(account_id, stored_tokens, used_legacy_format);
            if let Some(tokens) = legacy_rewrite(&auth, used_legacy_format) {
                let stored = write_chatgpt_tokens_to_keyring(credential_id.as_str(), &tokens)?;
                assert(tokens_stored(stored, credential_id@, tokens) && is_secret_of(StoredSecret::Tokens(tokens), auth));
                assert(rewrote_tokens(credential_id@, auth));
            }
            account.auth_data = auth;
            let r: Result<bool, StorageError> = Ok(migrated);
            assert(r matches Ok(m) ==> hydrated_from(kept, stored_copy, used_legacy_format, account.auth_data, m));
            r
        },
    }
}

/// The ChatGPT account id of the credentials changed from `before` to `after`.
pub open spec fn chatgpt_account_id_changed(before: AuthData, after: AuthData) -> bool {
    &&& before matches AuthData::ChatGPT { account_id: x, .. }
    &&& after matches AuthData::ChatGPT { account_id: y, .. }
    &&& opt_view(x) != opt_view(y)
}

/// The tokens `auth` holds were stored again for the account in the current form.
pub open spec fn rewrote_tokens(account_id: Seq<char>, auth: AuthData) -> bool {
    exists|stored: TokensStored, t: TokenData| #[trigger] tokens_stored(stored, account_id, t)
        && is_secret_of(StoredSecret::Tokens(t), auth)
}

/// The values that reads found, in order.
pub open spec fn values_read(reads: Seq<EntryRead>) -> Seq<Seq<char>> {
    reads.map_values(|r: EntryRead| r.value()->0)
}

/// Reading back a stored token gives it back: where a token was stored under the chunk
/// entries of a generation, and reading those entries in order finds what was written to
/// each, the values read, joined, are the token.
pub proof fn law_token_reads_back_as_written(writes: Seq<EntryWrite>, reads: Seq<EntryRead>, account_id: Seq<char>,
    generation: Seq<char>, field: Seq<char>, value: Seq<char>)
    requires
        stores_token(write_views(writes), account_id, generation, field, value),
        reads_chunks_in_order(reads, account_id, generation, field, writes.len() as u16),
        writes.len() <= 65535,
        forall|k: int| 0 <= k < writes.len() && (#[trigger] reads[k]).entry() == writes[k].entry()
            ==> reads[k].value() == Some(writes[k].value()),
    ensures
        values_read(reads).flatten() == value,
{
    let views = write_views(writes);
    law_stored_token_reads_back(views, account_id, generation, field, value);
    assert forall|k: int| 0 <= k < reads.len() implies #[trigger] values_read(reads)[k]
        == views.map_values(|w: (Seq<char>, Seq<char>)| w.1)[k] by {
        assert(views[k].0 == chatgpt_token_entry(account_id, generation, field, k as u16));
        assert(views[k] == (writes[k].entry(), writes[k].value()));
        assert(reads[k].entry() == writes[k].entry());
    }
    assert(values_read(reads) =~= views.map_values(|w: (Seq<char>, Seq<char>)| w.1));
}

/// Each read found what was written to the same entry, read `k` against write `k`.
pub open spec fn found_as_written(reads: Seq<EntryRead>, writes: Seq<EntryWrite>) -> bool {
    forall|k: int| 0 <= k < writes.len() && (#[trigger] reads[k]).entry() == writes[k].entry()
        ==> reads[k].value() == Some(writes[k].value())
}

/// Reading back tokens that were written as a new generation gives them back: where the
/// chunk entries of that generation are read in order, and each read finds what was written
/// to its entry, the three tokens joined from the reads are the three tokens written.
pub proof fn law_written_tokens_read_back(stored: TokensStored, account_id: Seq<char>, tokens: TokenData,
    read: TokenData, reads: GenerationReads)
    requires
        tokens_stored(stored, account_id, tokens),
        stored matches TokensStored::Written { generation, chunks, .. } && reads_generation(reads, account_id,
            generation) && found_as_written(reads.id_token@, chunks.id_token@)
            && found_as_written(reads.access_token@, chunks.access_token@)
            && found_as_written(reads.refresh_token@, chunks.refresh_token@),
        joins_reads(read, reads),
    ensures
        same_tokens(read, tokens),
{
    if let TokensStored::Written { generation, chunks, .. } = stored {
        law_token_reads_back_as_written(chunks.id_token@, reads.id_token@, account_id, generation.id@,
            ID_TOKEN_FIELD@, tokens.id_token@);
        law_token_reads_back_as_written(chunks.access_token@, reads.access_token@, account_id, generation.id@,
            ACCESS_TOKEN_FIELD@, tokens.access_token@);
        law_token_reads_back_as_written(chunks.refresh_token@, reads.refresh_token@, account_id, generation.id@,
            REFRESH_TOKEN_FIELD@, tokens.refresh_token@);
    }
}

/// Storing tokens leaves them in the active generation: either the chunks of the generation
/// in use, read from its chunk entries in order and joined, already gave exactly the three
/// tokens, or a new generation was written whose chunk entries, taken in order, hold exactly
/// the three tokens, and the manifest then written to the account's entry names that
/// generation as the active one.
pub proof fn law_stored_tokens_are_active(stored: TokensStored, account_id: Seq<char>, tokens: TokenData)
    requires
        tokens_stored(stored, account_id, tokens),
    ensures
        stored matches TokensStored::Kept { existing, generation, reads } ==> {
            &&& reads_generation(reads, account_id, generation)
            &&& values_read(reads.id_token@).flatten() == tokens.id_token@
            &&& values_read(reads.access_token@).flatten() == tokens.access_token@
            &&& values_read(reads.refresh_token@).flatten() == tokens.refresh_token@
        },
        stored matches TokensStored::Written { generation, chunks, manifest } ==> {
            &&& write_views(chunks.id_token@).map_values(|w: (Seq<char>, Seq<char>)| w.1).flatten() == tokens.id_token@
            &&& write_views(chunks.access_token@).map_values(|w: (Seq<char>, Seq<char>)| w.1).flatten()
                == tokens.access_token@
            &&& write_views(chunks.refresh_token@).map_values(|w: (Seq<char>, Seq<char>)| w.1).flatten()
                == tokens.refresh_token@
            &&& manifest.entry() == chatgpt_manifest_entry(account_id)
            &&& exists|m: CredentialManifest| manifest_encodes(m, manifest.value())
                && #[trigger] m.active_generation == generation
        },
{
    if let TokensStored::Written { generation, chunks, manifest } = stored {
        law_stored_token_reads_back(write_views(chunks.id_token@), account_id, generation.id@, ID_TOKEN_FIELD@,
            tokens.id_token@);
        law_stored_token_reads_back(write_views(chunks.access_token@), account_id, generation.id@,
            ACCESS_TOKEN_FIELD@, tokens.access_token@);
        law_stored_token_reads_back(write_views(chunks.refresh_token@), account_id, generation.id@,
            REFRESH_TOKEN_FIELD@, tokens.refresh_token@);
        let m = choose|m: CredentialManifest| manifest.value() == #[trigger] encode_manifest(m)
            && m.version == CHATGPT_CREDENTIAL_VERSION && m.active_generation == generation;
        assert(manifest_encodes(m, manifest.value()));
    }
}

/// Saving an account's secret stores exactly the secret the account holds: its API key is
/// written to its API-key entry, and its ChatGPT tokens end up in the active generation (as
/// `law_stored_tokens_are_active` says); only an account holding no secret itself is left
/// to what the credential store already has.
pub proof fn law_saved_secret_is_the_accounts(saved: SecretSaved, account_id: Seq<char>, auth: AuthData)
    requires
        saves_own_secret(saved, account_id, auth),
    ensures
        auth matches AuthData::ApiKey { key } ==> (key@.len() > 0 ==> (saved matches SecretSaved::ApiKey(w)
            && w.entry() == api_key_entry(account_id) && w.value() == key@)),
        auth matches AuthData::ChatGPT { id_token, access_token, refresh_token, account_id: a } ==> (
            holds_own_secret(auth) ==> (saved matches SecretSaved::Tokens(t) && tokens_stored(t, account_id,
            TokenData { id_token, access_token, refresh_token, account_id: a }))),
        !holds_own_secret(auth) ==> saved is AlreadyStored,
{
}

} // verus!
