//! Laws of the storage core, stated over the model and the same spec
//! functions that the executable operations' contracts use.

use vstd::prelude::*;
use crate::digest::sha256_of;
use crate::model::{
    StoreModel, has_digest, rec_with_digest, has_code, has_alias, alias_with_code,
    alias_index, has_bloom, bloom_with_name, bloom_index,
    insert_spec, add_alias_spec, save_spec, resolve_spec,
    lemma_digest_index_is, lemma_code_index_is, lemma_alias_index_is, lemma_bloom_index_is,
    lemma_insert_preserves_wf, lemma_add_alias_preserves_wf, lemma_save_preserves_wf,
};

verus! {

/// Law: upserting one URL twice under different codes yields Created then
/// Existing, and both calls observe the identical stored record — the id
/// assigned by the first call and the first call's code; the second code is
/// discarded. The first call's fresh-content case of `insert_url` leaves
/// `insert_spec(m0, code1, url)`; in that state the dedup case of
/// `insert_url` applies and reports `rec_with_digest`, pinned down here.
pub proof fn lemma_upsert_twice_dedups(m0: StoreModel, code1: Seq<char>, code2: Seq<char>, url: Seq<char>)
    requires
        m0.wf(),
        code1 != code2,
        !has_digest(m0.recs, sha256_of(url)),
        !has_code(m0.recs, code1),
        !has_alias(m0.aliases, code1),
    ensures
        ({
            let m1 = insert_spec(m0, code1, url);
            &&& m1.wf()
            &&& has_digest(m1.recs, sha256_of(url))
            &&& rec_with_digest(m1.recs, sha256_of(url)).id == m0.recs.len() + 1
            &&& rec_with_digest(m1.recs, sha256_of(url)).code == code1
            &&& rec_with_digest(m1.recs, sha256_of(url)).url == url
        }),
{
    lemma_insert_preserves_wf(m0, code1, url);
    let m1 = insert_spec(m0, code1, url);
    lemma_digest_index_is(m1.recs, sha256_of(url), m0.recs.len() as int);
}

/// Law: upserts of one URL serialize at the digest's uniqueness constraint.
/// In a well-formed store there is at most one record per digest, so every
/// caller that observes a record for `url` — the one Created winner or any
/// Existing observer, whose case of `insert_url` leaves the store unchanged
/// — observes the same record and the same id.
pub proof fn lemma_upsert_single_winner(m: StoreModel, url: Seq<char>, i: int, j: int)
    requires
        m.wf(),
        0 <= i < m.recs.len(),
        m.recs[i].digest == sha256_of(url),
        0 <= j < m.recs.len(),
        m.recs[j].digest == sha256_of(url),
    ensures
        i == j,
        rec_with_digest(m.recs, sha256_of(url)) == m.recs[i],
{
    assert(m.recs[i].digest == m.recs[j].digest);
    lemma_digest_index_is(m.recs, sha256_of(url), i);
}

/// Law: an alias resolves to the same URL as the canonical code of its
/// target record. In a well-formed store no alias is spelled like a
/// canonical code — `insert_alias` and `insert_url` both enforce the
/// disjointness — so the alias branch of the merged view always applies.
pub proof fn lemma_alias_resolves_like_canonical(m: StoreModel, a: Seq<char>, id: int)
    requires
        m.wf(),
        has_alias(m.aliases, a),
        alias_with_code(m.aliases, a).target_id == id,
    ensures
        1 <= id <= m.recs.len(),
        resolve_spec(m, a) == Some(m.recs[id - 1].url),
        resolve_spec(m, m.recs[id - 1].code) == Some(m.recs[id - 1].url),
{
    let k = alias_index(m.aliases, a);
    assert(0 <= k < m.aliases.len() && m.aliases[k].alias_code == a);
    assert(1 <= m.aliases[k].target_id <= m.recs.len());
    assert forall|i: int| 0 <= i < m.recs.len() implies m.recs[i].code != a by {
        assert(m.recs[i].code != m.aliases[k].alias_code);
    }
    assert(!has_code(m.recs, a));
    lemma_code_index_is(m.recs, m.recs[id - 1].code, id - 1);
}

/// Law: adding one alias code twice fails the second call. The first
/// insertion leaves `add_alias_spec(m0, a, id)`; in that state the alias
/// code is present, so the Duplicate case of `insert_alias` applies, the
/// store stays unchanged, and the first mapping remains intact — it still
/// maps `a` to `id`, and `a` still resolves to the target record's URL.
pub proof fn lemma_alias_duplicate_preserved(m0: StoreModel, a: Seq<char>, id: int)
    requires
        m0.wf(),
        !has_alias(m0.aliases, a),
        !has_code(m0.recs, a),
        1 <= id <= m0.recs.len(),
    ensures
        ({
            let m1 = add_alias_spec(m0, a, id);
            &&& m1.wf()
            &&& has_alias(m1.aliases, a)
            &&& alias_with_code(m1.aliases, a).target_id == id
            &&& resolve_spec(m1, a) == Some(m0.recs[id - 1].url)
        }),
{
    lemma_add_alias_preserves_wf(m0, a, id);
    let m1 = add_alias_spec(m0, a, id);
    lemma_alias_index_is(m1.aliases, a, m0.aliases.len() as int);
    lemma_alias_resolves_like_canonical(m1, a, id);
}

/// Law: saving one name twice and loading it returns the second payload
/// exactly — full replacement, last writer wins, no merge.
pub proof fn lemma_save_save_load(m0: StoreModel, name: Seq<char>, d1: Seq<u8>, d2: Seq<u8>, t1: int, t2: int)
    requires
        m0.wf(),
    ensures
        ({
            let m1 = save_spec(m0, name, d1, t1);
            let m2 = save_spec(m1, name, d2, t2);
            &&& m1.wf()
            &&& m2.wf()
            &&& has_bloom(m2.blooms, name)
            &&& bloom_with_name(m2.blooms, name).data == d2
            &&& bloom_with_name(m2.blooms, name).updated_at == t2
        }),
{
    lemma_save_preserves_wf(m0, name, d1, t1);
    let m1 = save_spec(m0, name, d1, t1);
    lemma_save_preserves_wf(m1, name, d2, t2);
    let m2 = save_spec(m1, name, d2, t2);
    if has_bloom(m0.blooms, name) {
        let k = bloom_index(m0.blooms, name);
        assert(0 <= k < m0.blooms.len() && m0.blooms[k].name == name);
        lemma_bloom_index_is(m1.blooms, name, k);
        lemma_bloom_index_is(m2.blooms, name, k);
    } else {
        lemma_bloom_index_is(m1.blooms, name, m0.blooms.len() as int);
        lemma_bloom_index_is(m2.blooms, name, m0.blooms.len() as int);
    }
}

} // verus!
