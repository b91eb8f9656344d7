//! The records kept under an account's ChatGPT entry in the credential store:
//! the manifest of chunked token generations, and the single-entry token
//! record of earlier versions.
use vstd::prelude::*;
use vstd::string::StringExecFns;
use crate::json::{json_string, is_prefix_at, ends_number_at, push_json_string, read_json_string,
    read_decimal, read_literal, lemma_prefix_concat, lemma_number_then};
use crate::text::{decimal, decimal_string};
use crate::types::{TokenData, opt_view};

verus! {

/// The format version of the manifests this library writes.
pub const CHATGPT_CREDENTIAL_VERSION: u8 = 1;

/// One generation of stored tokens: its id and how many chunks each token was split into.
#[derive(Debug)]
pub struct CredentialGeneration {
    pub id: String,
    pub id_token_chunks: u16,
    pub access_token_chunks: u16,
    pub refresh_token_chunks: u16,
}

/// The manifest: the generation in use and the generations still to be removed.
#[derive(Debug)]
pub struct CredentialManifest {
    pub version: u8,
    pub active_generation: CredentialGeneration,
    pub stale_generations: Vec<CredentialGeneration>,
}

/// What an account's ChatGPT entry holds.
#[derive(Debug)]
pub enum ChatGptKeyringRecord {
    Current(CredentialManifest),
    Legacy(TokenData),
}

/// What a generation consists of, by content.
pub open spec fn generation_view(g: CredentialGeneration) -> (Seq<char>, u16, u16, u16) {
    (g.id@, g.id_token_chunks, g.access_token_chunks, g.refresh_token_chunks)
}

pub open spec fn generation_views(gs: Seq<CredentialGeneration>) -> Seq<(Seq<char>, u16, u16, u16)> {
    gs.map_values(|g: CredentialGeneration| generation_view(g))
}

/// The JSON text of a generation.
pub open spec fn encode_generation(g: CredentialGeneration) -> Seq<char> {
    "{\"id\":"@ + json_string(g.id@) + ",\"id_token_chunks\":"@ + decimal(g.id_token_chunks as nat)
        + ",\"access_token_chunks\":"@ + decimal(g.access_token_chunks as nat)
        + ",\"refresh_token_chunks\":"@ + decimal(g.refresh_token_chunks as nat) + "}"@
}

/// The generations after the first, each preceded by a comma.
pub open spec fn encode_generation_tail(gs: Seq<CredentialGeneration>) -> Seq<char>
    decreases gs.len(),
{
    if gs.len() == 0 {
        Seq::empty()
    } else {
        encode_generation_tail(gs.drop_last()) + ","@ + encode_generation(gs.last())
    }
}

/// The JSON array of generations.
pub open spec fn encode_generation_list(gs: Seq<CredentialGeneration>) -> Seq<char> {
    if gs.len() == 0 {
        "[]"@
    } else {
        "["@ + encode_generation(gs[0]) + encode_generation_tail(gs.skip(1)) + "]"@
    }
}

/// The JSON text of a manifest, as it is written.
pub open spec fn encode_manifest(m: CredentialManifest) -> Seq<char> {
    "{\"version\":"@ + decimal(m.version as nat) + ",\"active_generation\":"@
        + encode_generation(m.active_generation) + ",\"stale_generations\":"@
        + encode_generation_list(m.stale_generations@) + "}"@
}

/// The JSON text of a manifest that leaves out its (empty) list of stale generations.
pub open spec fn encode_manifest_short(m: CredentialManifest) -> Seq<char> {
    "{\"version\":"@ + decimal(m.version as nat) + ",\"active_generation\":"@
        + encode_generation(m.active_generation) + "}"@
}

/// `text` is a JSON text of the manifest `m`.
pub open spec fn manifest_encodes(m: CredentialManifest, text: Seq<char>) -> bool {
    ||| text == encode_manifest(m)
    ||| (m.stale_generations@.len() == 0 && text == encode_manifest_short(m))
}

/// Two manifests with the same content.
pub open spec fn same_manifest(a: CredentialManifest, b: CredentialManifest) -> bool {
    &&& a.version == b.version
    &&& generation_view(a.active_generation) == generation_view(b.active_generation)
    &&& generation_views(a.stale_generations@) == generation_views(b.stale_generations@)
}

/// Appends the JSON text of `g` to `out`.
pub fn push_generation(out: &mut String, g: &CredentialGeneration)
    ensures
        final(out)@ == old(out)@ + encode_generation(*g),
{
    let ghost start = out@;
    out.append("{\"id\":");
    push_json_string(out, g.id.as_str());
    out.append(",\"id_token_chunks\":");
    out.append(decimal_string(g.id_token_chunks as u64).as_str());
    out.append(",\"access_token_chunks\":");
    out.append(decimal_string(g.access_token_chunks as u64).as_str());
    out.append(",\"refresh_token_chunks\":");
    out.append(decimal_string(g.refresh_token_chunks as u64).as_str());
    out.append("}");
    assert(out@ =~= start + encode_generation(*g));
}

proof fn lemma_tail_push(gs: Seq<CredentialGeneration>, g: CredentialGeneration)
    ensures
        encode_generation_tail(gs.push(g)) == encode_generation_tail(gs) + ","@ + encode_generation(g),
{
    assert(gs.push(g).drop_last() =~= gs);
}

/// The JSON text of a manifest.
pub fn manifest_to_json(m: &CredentialManifest) -> (text: String)
    ensures
        text@ == encode_manifest(*m),
{
    let mut out = String::new();
    out.append("{\"version\":");
    out.append(decimal_string(m.version as u64).as_str());
    out.append(",\"active_generation\":");
    push_generation(&mut out, &m.active_generation);
    out.append(",\"stale_generations\":");
    let ghost before = out@;
    let stale = &m.stale_generations;
    if stale.len() == 0 {
        out.append("[]");
    } else {
        out.append("[");
        push_generation(&mut out, &stale[0]);
        let ghost head = out@;
        let mut i: usize = 1;
        assert(stale@.subrange(1, 1) =~= Seq::<CredentialGeneration>::empty());
        while i < stale.len()
            invariant
                1 <= i <= stale@.len(),
                out@ == head + encode_generation_tail(stale@.subrange(1, i as int)),
            decreases stale@.len() - i,
        {
            proof {
                assert(stale@.subrange(1, i + 1) =~= stale@.subrange(1, i as int).push(stale@[i as int]));
                lemma_tail_push(stale@.subrange(1, i as int), stale@[i as int]);
            }
            out.append(",");
            push_generation(&mut out, &stale[i]);
            i = i + 1;
        }
        assert(stale@.subrange(1, stale@.len() as int) =~= stale@.skip(1));
        out.append("]");
    }
    assert(out@ =~= before + encode_generation_list(stale@));
    out.append("}");
    assert(out@ =~= encode_manifest(*m));
    out
}

/// Where each part of a generation's text lies, when the text occurs at `p`.
proof fn lemma_generation_parts(s: Seq<char>, p: int, g: CredentialGeneration)
    requires
        is_prefix_at(s, p, encode_generation(g)),
    ensures
        ({
            let o1 = p + "{\"id\":"@.len();
            let o2 = o1 + json_string(g.id@).len();
            let o3 = o2 + ",\"id_token_chunks\":"@.len();
            let o4 = o3 + decimal(g.id_token_chunks as nat).len();
            let o5 = o4 + ",\"access_token_chunks\":"@.len();
            let o6 = o5 + decimal(g.access_token_chunks as nat).len();
            let o7 = o6 + ",\"refresh_token_chunks\":"@.len();
            let o8 = o7 + decimal(g.refresh_token_chunks as nat).len();
            &&& is_prefix_at(s, p, "{\"id\":"@)
            &&& is_prefix_at(s, o1, json_string(g.id@))
            &&& is_prefix_at(s, o2, ",\"id_token_chunks\":"@)
            &&& ends_number_at(s, o3, decimal(g.id_token_chunks as nat))
            &&& is_prefix_at(s, o4, ",\"access_token_chunks\":"@)
            &&& ends_number_at(s, o5, decimal(g.access_token_chunks as nat))
            &&& is_prefix_at(s, o6, ",\"refresh_token_chunks\":"@)
            &&& ends_number_at(s, o7, decimal(g.refresh_token_chunks as nat))
            &&& is_prefix_at(s, o8, "}"@)
            &&& o8 + 1 == p + encode_generation(g).len()
        }),
{
    reveal_strlit("{\"id\":");
    reveal_strlit(",\"id_token_chunks\":");
    reveal_strlit(",\"access_token_chunks\":");
    reveal_strlit(",\"refresh_token_chunks\":");
    reveal_strlit("}");
    let l1 = "{\"id\":"@;
    let j = json_string(g.id@);
    let l2 = ",\"id_token_chunks\":"@;
    let d1 = decimal(g.id_token_chunks as nat);
    let l3 = ",\"access_token_chunks\":"@;
    let d2 = decimal(g.access_token_chunks as nat);
    let l4 = ",\"refresh_token_chunks\":"@;
    let d3 = decimal(g.refresh_token_chunks as nat);
    let l5 = "}"@;
    let t8 = l5;
    let t7 = d3 + t8;
    let t6 = l4 + t7;
    let t5 = d2 + t6;
    let t4 = l3 + t5;
    let t3 = d1 + t4;
    let t2 = l2 + t3;
    let t1 = j + t2;
    assert(encode_generation(g) =~= l1 + t1);
    let o1 = p + l1.len();
    let o2 = o1 + j.len();
    let o3 = o2 + l2.len();
    let o4 = o3 + d1.len();
    let o5 = o4 + l3.len();
    let o6 = o5 + d2.len();
    let o7 = o6 + l4.len();
    lemma_prefix_concat(s, p, l1, t1);
    lemma_prefix_concat(s, o1, j, t2);
    lemma_prefix_concat(s, o2, l2, t3);
    lemma_number_then(s, o3, g.id_token_chunks as nat, t4);
    lemma_prefix_concat(s, o4, l3, t5);
    lemma_number_then(s, o5, g.access_token_chunks as nat, t6);
    lemma_prefix_concat(s, o6, l4, t7);
    lemma_number_then(s, o7, g.refresh_token_chunks as nat, t8);
}

/// Reads the JSON text of a generation that starts at `p`.
#[verifier::spinoff_prover]
#[verifier::rlimit(100)]
pub fn read_generation(cs: &Vec<char>, p: usize) -> (r: Option<(CredentialGeneration, usize)>)
    requires
        p <= cs@.len(),
    ensures
        r matches Some((g, q)) ==> q == p + encode_generation(g).len()
            && is_prefix_at(cs@, p as int, encode_generation(g)),
        forall|g: CredentialGeneration| #[trigger] is_prefix_at(cs@, p as int, encode_generation(g))
            ==> (r matches Some((h, q)) && generation_view(h) == generation_view(g)
                && q == p + encode_generation(g).len()),
{
    let ghost s = cs@;
    let p1 = match read_literal(cs, p, "{\"id\":") {
        Some(q) => q,
        None => {
            proof {
                assert forall|g: CredentialGeneration| #[trigger] is_prefix_at(s, p as int, encode_generation(g))
                    implies false by { lemma_generation_parts(s, p as int, g); }
            }
            return None;
        },
    };
    let (id, p2) = match read_json_string(cs, p1) {
        Some(x) => x,
        None => {
            proof {
                assert forall|g: CredentialGeneration| #[trigger] is_prefix_at(s, p as int, encode_generation(g))
                    implies false by { lemma_generation_parts(s, p as int, g); }
            }
            return None;
        },
    };
    let p3 = match read_literal(cs, p2, ",\"id_token_chunks\":") {
        Some(q) => q,
        None => {
            proof {
                assert forall|g: CredentialGeneration| #[trigger] is_prefix_at(s, p as int, encode_generation(g))
                    implies false by { lemma_generation_parts(s, p as int, g); }
            }
            return None;
        },
    };
    let (a, p4) = match read_decimal(cs, p3, 65535) {
        Some(x) => x,
        None => {
            proof {
                assert forall|g: CredentialGeneration| #[trigger] is_prefix_at(s, p as int, encode_generation(g))
                    implies false by { lemma_generation_parts(s, p as int, g); }
            }
            return None;
        },
    };
    let p5 = match read_literal(cs, p4, ",\"access_token_chunks\":") {
        Some(q) => q,
        None => {
            proof {
                assert forall|g: CredentialGeneration| #[trigger] is_prefix_at(s, p as int, encode_generation(g))
                    implies false by { lemma_generation_parts(s, p as int, g); }
            }
            return None;
        },
    };
    let (b, p6) = match read_decimal(cs, p5, 65535) {
        Some(x) => x,
        None => {
            proof {
                assert forall|g: CredentialGeneration| #[trigger] is_prefix_at(s, p as int, encode_generation(g))
                    implies false by { lemma_generation_parts(s, p as int, g); }
            }
            return None;
        },
    };
    let p7 = match read_literal(cs, p6, ",\"refresh_token_chunks\":") {
        Some(q) => q,
        None => {
            proof {
                assert forall|g: CredentialGeneration| #[trigger] is_prefix_at(s, p as int, encode_generation(g))
                    implies false by { lemma_generation_parts(s, p as int, g); }
            }
            return None;
        },
    };
    let (c, p8) = match read_decimal(cs, p7, 65535) {
        Some(x) => x,
        None => {
            proof {
                assert forall|g: CredentialGeneration| #[trigger] is_prefix_at(s, p as int, encode_generation(g))
                    implies false by { lemma_generation_parts(s, p as int, g); }
            }
            return None;
        },
    };
    let p9 = match read_literal(cs, p8, "}") {
        Some(q) => q,
        None => {
            proof {
                assert forall|g: CredentialGeneration| #[trigger] is_prefix_at(s, p as int, encode_generation(g))
                    implies false by { lemma_generation_parts(s, p as int, g); }
            }
            return None;
        },
    };
    let g = CredentialGeneration {
        id,
        id_token_chunks: a as u16,
        access_token_chunks: b as u16,
        refresh_token_chunks: c as u16,
    };
    proof {
        let l1 = "{\"id\":"@;
        let l2 = ",\"id_token_chunks\":"@;
        let l3 = ",\"access_token_chunks\":"@;
        let l4 = ",\"refresh_token_chunks\":"@;
        let l5 = "}"@;
        assert(s.subrange(p as int, p9 as int) =~= l1 + json_string(id@) + l2 + decimal(a as nat) + l3
            + decimal(b as nat) + l4 + decimal(c as nat) + l5) by {
            assert(s.subrange(p as int, p1 as int) == l1);
        }
        assert(encode_generation(g) =~= l1 + json_string(id@) + l2 + decimal(a as nat) + l3
            + decimal(b as nat) + l4 + decimal(c as nat) + l5);
        assert forall|h: CredentialGeneration| #[trigger] is_prefix_at(s, p as int, encode_generation(h))
            implies generation_view(g) == generation_view(h) && p9 == p + encode_generation(h).len() by {
            lemma_generation_parts(s, p as int, h);
        }
    }
    Some((g, p9))
}

proof fn lemma_tail_append(a: Seq<CredentialGeneration>, b: Seq<CredentialGeneration>)
    ensures
        encode_generation_tail(a + b) == encode_generation_tail(a) + encode_generation_tail(b),
    decreases b.len(),
{
    if b.len() == 0 {
        assert(a + b =~= a);
        assert(encode_generation_tail(b) =~= Seq::<char>::empty());
        assert(encode_generation_tail(a) + encode_generation_tail(b) =~= encode_generation_tail(a));
    } else {
        lemma_tail_append(a, b.drop_last());
        assert((a + b).drop_last() =~= a + b.drop_last());
        assert((a + b).last() == b.last());
        assert(encode_generation_tail(a + b) =~= encode_generation_tail(a) + encode_generation_tail(b));
    }
}

proof fn lemma_tail_first(ts: Seq<CredentialGeneration>)
    requires
        ts.len() > 0,
    ensures
        encode_generation_tail(ts) == ","@ + encode_generation(ts[0]) + encode_generation_tail(ts.skip(1)),
{
    let one = seq![ts[0]];
    lemma_tail_append(one, ts.skip(1));
    assert(one + ts.skip(1) =~= ts);
    assert(one.drop_last() =~= Seq::<CredentialGeneration>::empty());
    assert(encode_generation_tail(one.drop_last()) =~= Seq::<char>::empty());
    assert(encode_generation_tail(one) =~= ","@ + encode_generation(ts[0]));
}

proof fn lemma_tail_views(a: Seq<CredentialGeneration>, b: Seq<CredentialGeneration>)
    requires
        generation_views(a) == generation_views(b),
    ensures
        encode_generation_tail(a) == encode_generation_tail(b),
    decreases a.len(),
{
    assert(generation_views(a).len() == a.len());
    assert(generation_views(b).len() == b.len());
    if a.len() > 0 {
        assert(generation_views(a.drop_last()) =~= generation_views(b.drop_last())) by {
            assert forall|k: int| 0 <= k < a.len() - 1 implies generation_views(a.drop_last())[k]
                == generation_views(b.drop_last())[k] by {
                assert(generation_views(a)[k] == generation_views(b)[k]);
            }
        }
        lemma_tail_views(a.drop_last(), b.drop_last());
        assert(generation_views(a)[a.len() - 1] == generation_views(b)[b.len() - 1]);
        assert(encode_generation(a.last()) == encode_generation(b.last()));
    }
}

/// Where a list of generations that starts at `p` continues, once `out` has been read up to `i`.
proof fn lemma_list_continues(s: Seq<char>, p: int, i: int, out: Seq<CredentialGeneration>,
    gs: Seq<CredentialGeneration>)
    requires
        0 <= p <= i <= s.len(),
        out.len() >= 1,
        gs.len() >= out.len(),
        generation_views(gs.take(out.len() as int)) == generation_views(out),
        s.subrange(p, i) == "["@ + encode_generation(out[0]) + encode_generation_tail(out.skip(1)),
        is_prefix_at(s, p, encode_generation_list(gs)),
    ensures
        gs.len() == out.len() ==> i < s.len() && s[i] == ']',
        gs.len() > out.len() ==> i < s.len() && s[i] == ',' && is_prefix_at(s, i + 1,
            encode_generation(gs[out.len() as int])),
{
    reveal_strlit("[");
    reveal_strlit("]");
    reveal_strlit(",");
    reveal_strlit("[]");
    let k = out.len() as int;
    assert(generation_views(gs.take(k))[0] == generation_views(out)[0]);
    assert(encode_generation(gs[0]) == encode_generation(out[0]));
    assert(gs.skip(1) =~= gs.subrange(1, k) + gs.skip(k));
    lemma_tail_append(gs.subrange(1, k), gs.skip(k));
    assert(generation_views(gs.subrange(1, k)) =~= generation_views(out.skip(1))) by {
        assert forall|t: int| 0 <= t < k - 1 implies generation_views(gs.subrange(1, k))[t]
            == generation_views(out.skip(1))[t] by {
            assert(generation_views(gs.take(k))[t + 1] == generation_views(out)[t + 1]);
        }
    }
    lemma_tail_views(gs.subrange(1, k), out.skip(1));
    let head = "["@ + encode_generation(out[0]) + encode_generation_tail(out.skip(1));
    let rest = encode_generation_tail(gs.skip(k)) + "]"@;
    assert(encode_generation_list(gs) =~= head + rest);
    lemma_prefix_concat(s, p, head, rest);
    assert(head.len() == i - p);
    if gs.len() == k {
        assert(gs.skip(k) =~= Seq::<CredentialGeneration>::empty());
        assert(rest =~= "]"@);
        assert(s[i] == s.subrange(i, i + rest.len())[0]);
    } else {
        lemma_tail_first(gs.skip(k));
        assert(gs.skip(k)[0] == gs[k]);
        let e = encode_generation(gs[k]);
        let after = encode_generation_tail(gs.skip(k).skip(1)) + "]"@;
        assert(rest =~= ","@ + (e + after));
        lemma_prefix_concat(s, i, ","@, e + after);
        lemma_prefix_concat(s, i + 1, e, after);
        assert(s[i] == s.subrange(i, i + 1)[0]);
    }
}

/// Reads the JSON array of generations that starts at `p`.
#[verifier::spinoff_prover]
#[verifier::rlimit(50)]
pub fn read_generation_list(cs: &Vec<char>, p: usize) -> (r: Option<(Vec<CredentialGeneration>, usize)>)
    requires
        p <= cs@.len(),
    ensures
        r matches Some((gs, q)) ==> q == p + encode_generation_list(gs@).len()
            && is_prefix_at(cs@, p as int, encode_generation_list(gs@)),
        forall|gs: Seq<CredentialGeneration>| #[trigger] is_prefix_at(cs@, p as int, encode_generation_list(gs))
            ==> (r matches Some((hs, q)) && generation_views(hs@) == generation_views(gs)
                && q == p + encode_generation_list(gs).len()),
{
    let ghost s = cs@;
    proof {
        reveal_strlit("[");
        reveal_strlit("]");
        reveal_strlit("[]");
    }
    if p >= cs.len() || cs[p] != '[' {
        proof {
            assert forall|gs: Seq<CredentialGeneration>| #[trigger] is_prefix_at(s, p as int, encode_generation_list(gs))
                implies false by {
                assert(encode_generation_list(gs)[0] == '[');
                assert(s.subrange(p as int, p + encode_generation_list(gs).len())[0] == s[p as int]);
            }
        }
        return None;
    }
    let p1 = p + 1;
    if p1 < cs.len() && cs[p1] == ']' {
        let empty: Vec<CredentialGeneration> = Vec::new();
        proof {
            assert(s.subrange(p as int, p1 + 1) =~= "[]"@);
            assert forall|gs: Seq<CredentialGeneration>| #[trigger] is_prefix_at(s, p as int, encode_generation_list(gs))
                implies gs.len() == 0 by {
                if gs.len() > 0 {
                    let l = encode_generation_list(gs);
                    reveal_strlit("{\"id\":");
                    assert(encode_generation(gs[0])[0] == '{');
                    assert(l[1] == encode_generation(gs[0])[0]);
                    assert(s.subrange(p as int, p + l.len())[1] == s[p1 as int]);
                }
            }
            assert(generation_views(empty@) =~= Seq::empty());
            assert forall|gs: Seq<CredentialGeneration>| gs.len() == 0 implies generation_views(gs)
                =~= Seq::empty() by {}
        }
        return Some((empty, p1 + 1));
    }
    // Any list at p is non-empty, and its first generation starts at p1.
    proof {
        assert forall|gs: Seq<CredentialGeneration>| #[trigger] is_prefix_at(s, p as int, encode_generation_list(gs))
            implies gs.len() > 0 && is_prefix_at(s, p1 as int, encode_generation(gs[0])) by {
            let l = encode_generation_list(gs);
            if gs.len() == 0 {
                assert(l =~= "[]"@);
                assert(s.subrange(p as int, p + 2)[1] == s[p1 as int]);
            } else {
                let rest = encode_generation(gs[0]) + (encode_generation_tail(gs.skip(1)) + "]"@);
                assert(l =~= "["@ + rest);
                lemma_prefix_concat(s, p as int, "["@, rest);
                lemma_prefix_concat(s, p1 as int, encode_generation(gs[0]),
                    encode_generation_tail(gs.skip(1)) + "]"@);
            }
        }
    }
    let (g0, mut i) = match read_generation(cs, p1) {
        Some(x) => x,
        None => {
            return None;
        },
    };
    let mut out: Vec<CredentialGeneration> = Vec::new();
    out.push(g0);
    proof {
        assert(out@.skip(1) =~= Seq::<CredentialGeneration>::empty());
        assert(encode_generation_tail(out@.skip(1)) =~= Seq::<char>::empty());
        assert(s.subrange(p as int, i as int) =~= "["@ + encode_generation(out@[0]) + encode_generation_tail(out@.skip(1))) by {
            assert(s.subrange(p as int, p1 as int) =~= "["@);
            assert(s.subrange(p as int, i as int) =~= s.subrange(p as int, p1 as int) + s.subrange(p1 as int, i as int));
        }
        assert forall|gs: Seq<CredentialGeneration>| #[trigger] is_prefix_at(s, p as int, encode_generation_list(gs))
            implies gs.len() >= out@.len() && generation_views(gs.take(out@.len() as int)) == generation_views(out@) by {
            assert(generation_views(gs.take(1)) =~= generation_views(out@));
        }
    }
    loop
        invariant
            s == cs@,
            p < i <= s.len(),
            out@.len() >= 1,
            s.subrange(p as int, i as int) == "["@ + encode_generation(out@[0]) + encode_generation_tail(out@.skip(1)),
            forall|gs: Seq<CredentialGeneration>| #[trigger] is_prefix_at(s, p as int, encode_generation_list(gs))
                ==> gs.len() >= out@.len() && generation_views(gs.take(out@.len() as int)) == generation_views(out@),
        decreases s.len() - i,
    {
        proof {
            assert forall|gs: Seq<CredentialGeneration>| #[trigger] is_prefix_at(s, p as int, encode_generation_list(gs))
                implies (gs.len() == out@.len() ==> i < s.len() && s[i as int] == ']')
                && (gs.len() > out@.len() ==> i < s.len() && s[i as int] == ',' && is_prefix_at(s, i + 1,
                    encode_generation(gs[out@.len() as int]))) by {
                lemma_list_continues(s, p as int, i as int, out@, gs);
            }
        }
        if i < cs.len() && cs[i] == ']' {
            proof {
                reveal_strlit("]");
                let l = encode_generation_list(out@);
                assert(l =~= "["@ + encode_generation(out@[0]) + encode_generation_tail(out@.skip(1)) + "]"@);
                assert(s.subrange(p as int, i + 1) =~= s.subrange(p as int, i as int) + seq![s[i as int]]);
                assert(s.subrange(p as int, i + 1) =~= l);
                assert forall|gs: Seq<CredentialGeneration>| #[trigger] is_prefix_at(s, p as int, encode_generation_list(gs))
                    implies generation_views(out@) == generation_views(gs)
                        && i + 1 == p + encode_generation_list(gs).len() by {
                    assert(gs.take(out@.len() as int) =~= gs);
                    assert(gs.skip(1) =~= gs.subrange(1, out@.len() as int));
                    let k = out@.len() as int;
                    assert(generation_views(gs.subrange(1, k)) =~= generation_views(out@.skip(1))) by {
                        assert forall|t: int| 0 <= t < k - 1 implies generation_views(gs.subrange(1, k))[t]
                            == generation_views(out@.skip(1))[t] by {
                            assert(generation_views(gs.take(k))[t + 1] == generation_views(out@)[t + 1]);
                        }
                    }
                    assert(generation_views(gs.take(k))[0] == generation_views(out@)[0]);
                    lemma_tail_views(gs.subrange(1, out@.len() as int), out@.skip(1));
                    assert(encode_generation(gs[0]) == encode_generation(out@[0]));
                    assert(encode_generation_list(gs) =~= l);
                }
            }
            return Some((out, i + 1));
        }
        if !(i < cs.len() && cs[i] == ',') {
            return None;
        }
        let (g, j) = match read_generation(cs, i + 1) {
            Some(x) => x,
            None => {
                return None;
            },
        };
        proof {
            reveal_strlit(",");
            let k = out@.len() as int;
            let next = out@.push(g);
            assert(next.skip(1) =~= out@.skip(1).push(g));
            lemma_tail_push(out@.skip(1), g);
            assert(s.subrange(p as int, j as int) =~= s.subrange(p as int, i as int) + s.subrange(i as int, i + 1)
                + s.subrange(i + 1, j as int));
            assert(s.subrange(i as int, i + 1) =~= ","@);
            assert(next[0] == out@[0]);
            assert forall|gs: Seq<CredentialGeneration>| #[trigger] is_prefix_at(s, p as int, encode_generation_list(gs))
                implies gs.len() >= next.len() && generation_views(gs.take(next.len() as int)) == generation_views(next) by {
                assert(generation_views(gs.take(k + 1)) =~= generation_views(next)) by {
                    assert forall|t: int| 0 <= t < k + 1 implies generation_views(gs.take(k + 1))[t]
                        == generation_views(next)[t] by {
                        if t < k {
                            assert(generation_views(gs.take(k))[t] == generation_views(out@)[t]);
                        }
                    }
                }
            }
        }
        out.push(g);
        i = j;
    }
}

proof fn lemma_manifest_head(s: Seq<char>, m: CredentialManifest, rest: Seq<char>)
    requires
        is_prefix_at(s, 0, "{\"version\":"@ + decimal(m.version as nat) + ",\"active_generation\":"@
            + encode_generation(m.active_generation) + rest),
    ensures
        ({
            let o1 = "{\"version\":"@.len() as int;
            let o2 = o1 + decimal(m.version as nat).len();
            let o3 = o2 + ",\"active_generation\":"@.len();
            let o4 = o3 + encode_generation(m.active_generation).len();
            &&& is_prefix_at(s, 0, "{\"version\":"@)
            &&& ends_number_at(s, o1, decimal(m.version as nat))
            &&& is_prefix_at(s, o2, ",\"active_generation\":"@)
            &&& is_prefix_at(s, o3, encode_generation(m.active_generation))
            &&& is_prefix_at(s, o4, rest)
        }),
{
    reveal_strlit("{\"version\":");
    reveal_strlit(",\"active_generation\":");
    let l1 = "{\"version\":"@;
    let d = decimal(m.version as nat);
    let l2 = ",\"active_generation\":"@;
    let g = encode_generation(m.active_generation);
    let t3 = g + rest;
    let t2 = l2 + t3;
    let t1 = d + t2;
    assert(l1 + d + l2 + g + rest =~= l1 + t1);
    let o1 = l1.len() as int;
    let o2 = o1 + d.len();
    let o3 = o2 + l2.len();
    lemma_prefix_concat(s, 0, l1, t1);
    lemma_number_then(s, o1, m.version as nat, t2);
    lemma_prefix_concat(s, o2, l2, t3);
    lemma_prefix_concat(s, o3, g, rest);
}

proof fn lemma_whole(s: Seq<char>, t: Seq<char>)
    ensures
        (s == t) <==> (is_prefix_at(s, 0, t) && t.len() == s.len()),
{
    if is_prefix_at(s, 0, t) && t.len() == s.len() {
        assert(s =~= s.subrange(0, t.len() as int));
    }
    if s == t {
        assert(s.subrange(0, t.len() as int) =~= t);
    }
}

/// Reads a manifest from its JSON text.
#[verifier::spinoff_prover]
#[verifier::rlimit(100)]
pub fn manifest_from_json(text: &str) -> (r: Option<CredentialManifest>)
    ensures
        r matches Some(m) ==> manifest_encodes(m, text@),
        forall|m: CredentialManifest| #[trigger] manifest_encodes(m, text@)
            ==> (r matches Some(h) && same_manifest(h, m)),
{
    let cs = crate::text::chars_of(text);
    let ghost s = cs@;
    let ghost l1 = "{\"version\":"@;
    let ghost l2 = ",\"active_generation\":"@;
    let ghost l3 = ",\"stale_generations\":"@;
    let ghost l4 = "}"@;
    proof {
        reveal_strlit("}");
        reveal_strlit(",\"stale_generations\":");
        assert forall|m: CredentialManifest| #[trigger] manifest_encodes(m, s) implies ({
            let o1 = l1.len() as int;
            let o2 = o1 + decimal(m.version as nat).len();
            let o3 = o2 + l2.len();
            let o4 = o3 + encode_generation(m.active_generation).len();
            &&& is_prefix_at(s, 0, l1)
            &&& ends_number_at(s, o1, decimal(m.version as nat))
            &&& is_prefix_at(s, o2, l2)
            &&& is_prefix_at(s, o3, encode_generation(m.active_generation))
            &&& (s == encode_manifest(m) ==> is_prefix_at(s, o4, l3) && is_prefix_at(s, o4 + l3.len(),
                    encode_generation_list(m.stale_generations@))
                && o4 + l3.len() + encode_generation_list(m.stale_generations@).len() + 1 == s.len()
                && s[s.len() - 1] == '}' && s[o4] == ',')
            &&& (s == encode_manifest_short(m) ==> o4 + 1 == s.len() && s[o4] == '}')
        }) by {
            let g = encode_generation(m.active_generation);
            let ls = encode_generation_list(m.stale_generations@);
            if s == encode_manifest(m) {
                let rest = l3 + (ls + l4);
                assert(encode_manifest(m) =~= l1 + decimal(m.version as nat) + l2 + g + rest);
                lemma_whole(s, encode_manifest(m));
                lemma_manifest_head(s, m, rest);
                let o4 = l1.len() + decimal(m.version as nat).len() + l2.len() + g.len() as int;
                lemma_prefix_concat(s, o4, l3, ls + l4);
                lemma_prefix_concat(s, o4 + l3.len(), ls, l4);
                assert(s[o4] == s.subrange(o4, o4 + l3.len())[0]);
                assert(s[s.len() - 1] == s.subrange(o4 + l3.len() + ls.len(), o4 + l3.len() + ls.len() + 1)[0]);
                assert(encode_manifest_short(m).len() < encode_manifest(m).len());
                assert(is_prefix_at(s, 0, l1));
                assert(is_prefix_at(s, o4, l3));
                assert(is_prefix_at(s, o4 + l3.len(), ls));
                assert(o4 + l3.len() + ls.len() + 1 == s.len());
                assert(s[s.len() - 1] == '}');
                assert(s[o4] == ',');
            } else {
                assert(s == encode_manifest_short(m));
                assert(encode_manifest_short(m) =~= l1 + decimal(m.version as nat) + l2 + g + l4);
                lemma_whole(s, encode_manifest_short(m));
                lemma_manifest_head(s, m, l4);
                let o4 = l1.len() + decimal(m.version as nat).len() + l2.len() + g.len() as int;
                assert(s[o4] == s.subrange(o4, o4 + 1)[0]);
                assert(o4 + 1 == s.len());
                assert(s[o4] == '}');
            }
        }
    }
    let p1 = match read_literal(&cs, 0, "{\"version\":") {
        Some(q) => q,
        None => { return None; },
    };
    let (version, p2) = match read_decimal(&cs, p1, 255) {
        Some(x) => x,
        None => { return None; },
    };
    let p3 = match read_literal(&cs, p2, ",\"active_generation\":") {
        Some(q) => q,
        None => { return None; },
    };
    let (active, p4) = match read_generation(&cs, p3) {
        Some(x) => x,
        None => { return None; },
    };
    if p4 < cs.len() && cs[p4] == '}' {
        if p4 + 1 != cs.len() {
            return None;
        }
        let m = CredentialManifest { version: version as u8, active_generation: active, stale_generations: Vec::new() };
        proof {
            assert(s.subrange(p4 as int, p4 + 1) =~= l4);
            assert(s =~= encode_manifest_short(m)) by {
                assert(s =~= s.subrange(0, p1 as int) + s.subrange(p1 as int, p2 as int) + s.subrange(p2 as int, p3 as int)
                    + s.subrange(p3 as int, p4 as int) + s.subrange(p4 as int, p4 + 1));
            }
            assert(generation_views(m.stale_generations@) =~= Seq::empty());
            assert forall|n: CredentialManifest| #[trigger] manifest_encodes(n, s) implies same_manifest(m, n) by {
                if s == encode_manifest(n) {
                    assert(false);
                }
                assert(generation_views(n.stale_generations@) =~= Seq::empty());
            }
        }
        return Some(m);
    }
    let p5 = match read_literal(&cs, p4, ",\"stale_generations\":") {
        Some(q) => q,
        None => { return None; },
    };
    let (stale, p6) = match read_generation_list(&cs, p5) {
        Some(x) => x,
        None => { return None; },
    };
    if !(p6 < cs.len() && cs[p6] == '}' && p6 + 1 == cs.len()) {
        return None;
    }
    let m = CredentialManifest { version: version as u8, active_generation: active, stale_generations: stale };
    proof {
        assert(s.subrange(p6 as int, p6 + 1) =~= l4);
        assert(s =~= encode_manifest(m)) by {
            assert(s =~= s.subrange(0, p1 as int) + s.subrange(p1 as int, p2 as int) + s.subrange(p2 as int, p3 as int)
                + s.subrange(p3 as int, p4 as int) + s.subrange(p4 as int, p5 as int) + s.subrange(p5 as int, p6 as int)
                + s.subrange(p6 as int, p6 + 1));
        }
        assert forall|n: CredentialManifest| #[trigger] manifest_encodes(n, s) implies same_manifest(m, n) by {
            if s == encode_manifest_short(n) && s != encode_manifest(n) {
                assert(false);
            }
        }
    }
    Some(m)
}

/// What a set of tokens consists of, by content.
pub open spec fn token_view(t: TokenData) -> (Seq<char>, Seq<char>, Seq<char>, Option<Seq<char>>) {
    (t.id_token@, t.access_token@, t.refresh_token@, opt_view(t.account_id))
}

/// The JSON text of the three tokens, up to the account id.
pub open spec fn encode_tokens_head(t: TokenData) -> Seq<char> {
    "{\"id_token\":"@ + json_string(t.id_token@) + ",\"access_token\":"@ + json_string(t.access_token@)
        + ",\"refresh_token\":"@ + json_string(t.refresh_token@)
}

/// The JSON text of a token record, as earlier versions stored it.
pub open spec fn encode_tokens(t: TokenData) -> Seq<char> {
    encode_tokens_head(t) + ",\"account_id\":"@ + match t.account_id {
        Some(a) => json_string(a@),
        None => "null"@,
    } + "}"@
}

/// `text` is a JSON text of the token record `t` (the account id may be left out when there is none).
pub open spec fn tokens_encode(t: TokenData, text: Seq<char>) -> bool {
    ||| text == encode_tokens(t)
    ||| (t.account_id is None && text == encode_tokens_head(t) + "}"@)
}

proof fn lemma_tokens_head(s: Seq<char>, t: TokenData, rest: Seq<char>)
    requires
        is_prefix_at(s, 0, encode_tokens_head(t) + rest),
    ensures
        ({
            let o1 = "{\"id_token\":"@.len() as int;
            let o2 = o1 + json_string(t.id_token@).len();
            let o3 = o2 + ",\"access_token\":"@.len();
            let o4 = o3 + json_string(t.access_token@).len();
            let o5 = o4 + ",\"refresh_token\":"@.len();
            let o6 = o5 + json_string(t.refresh_token@).len();
            &&& is_prefix_at(s, 0, "{\"id_token\":"@)
            &&& is_prefix_at(s, o1, json_string(t.id_token@))
            &&& is_prefix_at(s, o2, ",\"access_token\":"@)
            &&& is_prefix_at(s, o3, json_string(t.access_token@))
            &&& is_prefix_at(s, o4, ",\"refresh_token\":"@)
            &&& is_prefix_at(s, o5, json_string(t.refresh_token@))
            &&& is_prefix_at(s, o6, rest)
            &&& o6 == encode_tokens_head(t).len()
        }),
{
    let l1 = "{\"id_token\":"@;
    let j1 = json_string(t.id_token@);
    let l2 = ",\"access_token\":"@;
    let j2 = json_string(t.access_token@);
    let l3 = ",\"refresh_token\":"@;
    let j3 = json_string(t.refresh_token@);
    let t6 = j3 + rest;
    let t5 = l3 + t6;
    let t4 = j2 + t5;
    let t3 = l2 + t4;
    let t2 = j1 + t3;
    assert(encode_tokens_head(t) + rest =~= l1 + t2);
    let o1 = l1.len() as int;
    let o2 = o1 + j1.len();
    let o3 = o2 + l2.len();
    let o4 = o3 + j2.len();
    let o5 = o4 + l3.len();
    lemma_prefix_concat(s, 0, l1, t2);
    lemma_prefix_concat(s, o1, j1, t3);
    lemma_prefix_concat(s, o2, l2, t4);
    lemma_prefix_concat(s, o3, j2, t5);
    lemma_prefix_concat(s, o4, l3, t6);
    lemma_prefix_concat(s, o5, j3, rest);
}

/// Reads a token record, in the JSON form earlier versions stored it in.
#[verifier::spinoff_prover]
#[verifier::rlimit(100)]
pub fn tokens_from_json(text: &str) -> (r: Option<TokenData>)
    ensures
        r matches Some(t) ==> tokens_encode(t, text@),
        forall|t: TokenData| #[trigger] tokens_encode(t, text@)
            ==> (r matches Some(u) && token_view(u) == token_view(t)),
{
    let cs = crate::text::chars_of(text);
    let ghost s = cs@;
    let ghost la = ",\"account_id\":"@;
    let ghost lnull = "null"@;
    let ghost lend = "}"@;
    proof {
        reveal_strlit("}");
        reveal_strlit("null");
        reveal_strlit(",\"account_id\":");
        assert forall|t: TokenData| #[trigger] tokens_encode(t, s) implies ({
            let h = encode_tokens_head(t).len() as int;
            &&& is_prefix_at(s, 0, "{\"id_token\":"@)
            &&& is_prefix_at(s, "{\"id_token\":"@.len() as int, json_string(t.id_token@))
            &&& is_prefix_at(s, "{\"id_token\":"@.len() + json_string(t.id_token@).len() as int, ",\"access_token\":"@)
            &&& is_prefix_at(s, "{\"id_token\":"@.len() + json_string(t.id_token@).len() + ",\"access_token\":"@.len() as int,
                json_string(t.access_token@))
            &&& is_prefix_at(s, "{\"id_token\":"@.len() + json_string(t.id_token@).len() + ",\"access_token\":"@.len()
                + json_string(t.access_token@).len() as int, ",\"refresh_token\":"@)
            &&& is_prefix_at(s, "{\"id_token\":"@.len() + json_string(t.id_token@).len() + ",\"access_token\":"@.len()
                + json_string(t.access_token@).len() + ",\"refresh_token\":"@.len() as int, json_string(t.refresh_token@))
            &&& (s == encode_tokens(t) ==> h < s.len() && s[h] == ',' && is_prefix_at(s, h, la) && (match t.account_id {
                    Some(a) => is_prefix_at(s, h + la.len(), json_string(a@))
                        && h + la.len() + json_string(a@).len() + 1 == s.len(),
                    None => is_prefix_at(s, h + la.len(), lnull) && h + la.len() + 5 == s.len(),
                }) && s[s.len() - 1] == '}')
            &&& (s != encode_tokens(t) ==> t.account_id is None && h + 1 == s.len() && s[h] == '}')
        }) by {
            let head = encode_tokens_head(t);
            let h = head.len() as int;
            if s == encode_tokens(t) {
                let acc = match t.account_id {
                    Some(a) => json_string(a@),
                    None => lnull,
                };
                let rest = la + (acc + lend);
                assert(encode_tokens(t) =~= head + rest);
                lemma_whole(s, encode_tokens(t));
                lemma_tokens_head(s, t, rest);
                lemma_prefix_concat(s, h, la, acc + lend);
                lemma_prefix_concat(s, h + la.len(), acc, lend);
                assert(s[h] == s.subrange(h, h + la.len())[0]);
                assert(s[s.len() - 1] == s.subrange(h + la.len() + acc.len(), h + la.len() + acc.len() + 1)[0]);
                assert(h < s.len() && s[h] == ',');
                assert(is_prefix_at(s, h, la));
                assert(s[s.len() - 1] == '}');
                if t.account_id is None {
                    assert(acc == lnull);
                    assert(lnull.len() == 4);
                    assert(is_prefix_at(s, h + la.len(), lnull));
                    assert(h + la.len() + 5 == s.len());
                }
            } else {
                assert(encode_tokens_head(t) + lend == s);
                lemma_whole(s, head + lend);
                lemma_tokens_head(s, t, lend);
                assert(s[h] == s.subrange(h, h + 1)[0]);
                assert(t.account_id is None);
                assert(h + 1 == s.len());
                assert(s[h] == '}');
            }
        }
    }
    let p1 = match read_literal(&cs, 0, "{\"id_token\":") {
        Some(q) => q,
        None => { return None; },
    };
    let (id_token, p2) = match read_json_string(&cs, p1) {
        Some(x) => x,
        None => { return None; },
    };
    let p3 = match read_literal(&cs, p2, ",\"access_token\":") {
        Some(q) => q,
        None => { return None; },
    };
    let (access_token, p4) = match read_json_string(&cs, p3) {
        Some(x) => x,
        None => { return None; },
    };
    let p5 = match read_literal(&cs, p4, ",\"refresh_token\":") {
        Some(q) => q,
        None => { return None; },
    };
    let (refresh_token, p6) = match read_json_string(&cs, p5) {
        Some(x) => x,
        None => { return None; },
    };
    let ghost head = s.subrange(0, p6 as int);
    proof {
        assert(head =~= s.subrange(0, p1 as int) + s.subrange(p1 as int, p2 as int) + s.subrange(p2 as int, p3 as int)
            + s.subrange(p3 as int, p4 as int) + s.subrange(p4 as int, p5 as int) + s.subrange(p5 as int, p6 as int));
    }
    if p6 < cs.len() && cs[p6] == '}' {
        if p6 + 1 != cs.len() {
            return None;
        }
        let t = TokenData { id_token, access_token, refresh_token, account_id: None };
        proof {
            assert(s =~= head + s.subrange(p6 as int, p6 + 1));
            assert(s.subrange(p6 as int, p6 + 1) =~= lend);
            assert(head =~= encode_tokens_head(t));
        }
        return Some(t);
    }
    let p7 = match read_literal(&cs, p6, ",\"account_id\":") {
        Some(q) => q,
        None => { return None; },
    };
    let (account_id, p8) = match read_literal(&cs, p7, "null") {
        Some(q) => (None, q),
        None => match read_json_string(&cs, p7) {
            Some((a, q)) => (Some(a), q),
            None => { return None; },
        },
    };
    proof {
        assert forall|u: TokenData| #[trigger] tokens_encode(u, s)
            implies p8 + 1 == s.len() && s[p8 as int] == '}' by {
            let h = encode_tokens_head(u).len() as int;
            assert(p6 == h);
            assert(s == encode_tokens(u));
            assert(p7 == h + la.len());
            if u.account_id is Some {
                let a = u.account_id->0;
                assert(json_string(a@)[0] == '"');
                assert(s.subrange(p7 as int, p7 + json_string(a@).len())[0] == s[p7 as int]);
                assert(lnull[0] == 'n');
                if is_prefix_at(s, p7 as int, lnull) {
                    assert(s.subrange(p7 as int, p7 + 4)[0] == s[p7 as int]);
                }
                assert(!is_prefix_at(s, p7 as int, lnull));
            }
        }
    }
    if !(p8 < cs.len() && cs[p8] == '}' && p8 + 1 == cs.len()) {
        return None;
    }
    let t = TokenData { id_token, access_token, refresh_token, account_id };
    proof {
        assert(s.subrange(p8 as int, p8 + 1) =~= lend);
        assert(head =~= encode_tokens_head(t));
        let acc = match opt_view(t.account_id) {
            Some(a) => json_string(a),
            None => lnull,
        };
        assert(s.subrange(p7 as int, p8 as int) == acc);
        assert(s =~= head + s.subrange(p6 as int, p7 as int) + s.subrange(p7 as int, p8 as int) + s.subrange(p8 as int, p8 + 1));
        assert(s =~= encode_tokens(t));
        assert forall|u: TokenData| #[trigger] tokens_encode(u, s) implies token_view(t) == token_view(u) by {
            if u.account_id is Some {
                let a = u.account_id->0;
                assert(json_string(a@)[0] == '"');
                assert(s.subrange(p7 as int, p7 + json_string(a@).len())[0] == s[p7 as int]);
                assert(!is_prefix_at(s, p7 as int, lnull));
            }
        }
    }
    Some(t)
}

/// A manifest reads back as itself: the text that `manifest_to_json` writes for `m` is one
/// that `manifest_from_json` takes as a text of `m`, so it gives back a manifest with the
/// same content.
pub proof fn law_manifest_reads_back(m: CredentialManifest)
    ensures
        manifest_encodes(m, encode_manifest(m)),
{
}

/// A token record in the form of earlier versions reads back as itself: its text is one that
/// `tokens_from_json` takes as a text of those tokens.
pub proof fn law_tokens_read_back(t: TokenData)
    ensures
        tokens_encode(t, encode_tokens(t)),
{
}

} // verus!
