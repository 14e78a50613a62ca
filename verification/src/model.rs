//! The mathematical model of the store: sequences of canonical records,
//! aliases and filter snapshots, their well-formedness, and the spec-level
//! transitions that the executable operations are proved against.

use vstd::prelude::*;
use crate::digest::sha256_of;

verus! {

/// Model of one canonical record: the id is its position plus one, the
/// digest is the fingerprint of the url.
#[verifier::ext_equal]
pub ghost struct RecModel {
    pub id: int,
    pub code: Seq<char>,
    pub url: Seq<char>,
    pub digest: Seq<u8>,
}

/// Model of one alias: a secondary code resolving to a canonical id.
#[verifier::ext_equal]
pub ghost struct AliasModel {
    pub alias_code: Seq<char>,
    pub target_id: int,
}

/// Model of one persisted filter snapshot, keyed by its logical name.
#[verifier::ext_equal]
pub ghost struct BloomModel {
    pub name: Seq<char>,
    pub data: Seq<u8>,
    pub updated_at: int,
}

/// Model of the whole store.
#[verifier::ext_equal]
pub ghost struct StoreModel {
    pub recs: Seq<RecModel>,
    pub aliases: Seq<AliasModel>,
    pub blooms: Seq<BloomModel>,
}

/// Some canonical record carries this digest.
pub open spec fn has_digest(recs: Seq<RecModel>, d: Seq<u8>) -> bool {
    exists|i: int| 0 <= i < recs.len() && recs[i].digest == d
}

/// The position of the canonical record carrying this digest (well-defined
/// whenever digests are unique and `has_digest` holds).
pub open spec fn digest_index(recs: Seq<RecModel>, d: Seq<u8>) -> int {
    choose|i: int| 0 <= i < recs.len() && recs[i].digest == d
}

/// The canonical record carrying this digest.
pub open spec fn rec_with_digest(recs: Seq<RecModel>, d: Seq<u8>) -> RecModel {
    recs[digest_index(recs, d)]
}

/// Some canonical record carries this short code.
pub open spec fn has_code(recs: Seq<RecModel>, c: Seq<char>) -> bool {
    exists|i: int| 0 <= i < recs.len() && recs[i].code == c
}

/// The position of the canonical record carrying this code.
pub open spec fn code_index(recs: Seq<RecModel>, c: Seq<char>) -> int {
    choose|i: int| 0 <= i < recs.len() && recs[i].code == c
}

/// The canonical record carrying this code.
pub open spec fn rec_with_code(recs: Seq<RecModel>, c: Seq<char>) -> RecModel {
    recs[code_index(recs, c)]
}

/// Some alias carries this code.
pub open spec fn has_alias(aliases: Seq<AliasModel>, a: Seq<char>) -> bool {
    exists|i: int| 0 <= i < aliases.len() && aliases[i].alias_code == a
}

/// The position of the alias carrying this code.
pub open spec fn alias_index(aliases: Seq<AliasModel>, a: Seq<char>) -> int {
    choose|i: int| 0 <= i < aliases.len() && aliases[i].alias_code == a
}

/// The alias carrying this code.
pub open spec fn alias_with_code(aliases: Seq<AliasModel>, a: Seq<char>) -> AliasModel {
    aliases[alias_index(aliases, a)]
}

/// Some snapshot carries this name.
pub open spec fn has_bloom(blooms: Seq<BloomModel>, n: Seq<char>) -> bool {
    exists|i: int| 0 <= i < blooms.len() && blooms[i].name == n
}

/// The position of the snapshot carrying this name.
pub open spec fn bloom_index(blooms: Seq<BloomModel>, n: Seq<char>) -> int {
    choose|i: int| 0 <= i < blooms.len() && blooms[i].name == n
}

/// The snapshot carrying this name.
pub open spec fn bloom_with_name(blooms: Seq<BloomModel>, n: Seq<char>) -> BloomModel {
    blooms[bloom_index(blooms, n)]
}

/// Ids are assigned monotonically: the record at position `i` has id `i + 1`.
pub open spec fn recs_ids_sequential(recs: Seq<RecModel>) -> bool {
    forall|i: int| 0 <= i < recs.len() ==> (#[trigger] recs[i]).id == i + 1
}

/// No two canonical records share a short code.
pub open spec fn recs_codes_unique(recs: Seq<RecModel>) -> bool {
    forall|i: int, j: int| #![trigger recs[i].code, recs[j].code]
        0 <= i < recs.len() && 0 <= j < recs.len() && i != j ==> recs[i].code != recs[j].code
}

/// No two canonical records share a content digest.
pub open spec fn recs_digests_unique(recs: Seq<RecModel>) -> bool {
    forall|i: int, j: int| #![trigger recs[i].digest, recs[j].digest]
        0 <= i < recs.len() && 0 <= j < recs.len() && i != j ==> recs[i].digest != recs[j].digest
}

/// Every record's digest is the fingerprint of its url.
pub open spec fn recs_digests_consistent(recs: Seq<RecModel>) -> bool {
    forall|i: int| 0 <= i < recs.len() ==> (#[trigger] recs[i]).digest == sha256_of(recs[i].url)
}

/// No two aliases share a code.
pub open spec fn aliases_unique(aliases: Seq<AliasModel>) -> bool {
    forall|i: int, j: int| #![trigger aliases[i].alias_code, aliases[j].alias_code]
        0 <= i < aliases.len() && 0 <= j < aliases.len() && i != j
            ==> aliases[i].alias_code != aliases[j].alias_code
}

/// Every alias points at an existing canonical id.
pub open spec fn aliases_valid(aliases: Seq<AliasModel>, recs: Seq<RecModel>) -> bool {
    forall|i: int| 0 <= i < aliases.len()
        ==> 1 <= (#[trigger] aliases[i]).target_id <= recs.len()
}

/// The two code namespaces never overlap: no alias is spelled like a
/// canonical code, so at most one namespace matches any code at read time.
pub open spec fn namespaces_disjoint(recs: Seq<RecModel>, aliases: Seq<AliasModel>) -> bool {
    forall|i: int, j: int| #![trigger recs[i].code, aliases[j].alias_code]
        0 <= i < recs.len() && 0 <= j < aliases.len()
            ==> recs[i].code != aliases[j].alias_code
}

/// At most one snapshot per name.
pub open spec fn blooms_unique(blooms: Seq<BloomModel>) -> bool {
    forall|i: int, j: int| #![trigger blooms[i].name, blooms[j].name]
        0 <= i < blooms.len() && 0 <= j < blooms.len() && i != j
            ==> blooms[i].name != blooms[j].name
}

impl StoreModel {
    /// Well-formedness: the invariants the store maintains at all times.
    pub open spec fn wf(self) -> bool {
        &&& recs_ids_sequential(self.recs)
        &&& recs_codes_unique(self.recs)
        &&& recs_digests_unique(self.recs)
        &&& recs_digests_consistent(self.recs)
        &&& aliases_unique(self.aliases)
        &&& aliases_valid(self.aliases, self.recs)
        &&& namespaces_disjoint(self.recs, self.aliases)
        &&& blooms_unique(self.blooms)
    }
}

/// The record a successful insert of `url` under `code` appends.
pub open spec fn created_rec(recs: Seq<RecModel>, code: Seq<char>, url: Seq<char>) -> RecModel {
    RecModel { id: recs.len() as int + 1, code: code, url: url, digest: sha256_of(url) }
}

/// The store after a successful insert of a fresh url under a fresh code.
pub open spec fn insert_spec(m: StoreModel, code: Seq<char>, url: Seq<char>) -> StoreModel {
    StoreModel { recs: m.recs.push(created_rec(m.recs, code, url)), ..m }
}

/// The store after a successful alias insertion.
pub open spec fn add_alias_spec(m: StoreModel, alias_code: Seq<char>, target_id: int) -> StoreModel {
    StoreModel { aliases: m.aliases.push(AliasModel { alias_code, target_id }), ..m }
}

/// The store after saving a snapshot: full replacement if the name exists,
/// a new row otherwise.
pub open spec fn save_spec(m: StoreModel, name: Seq<char>, data: Seq<u8>, updated_at: int) -> StoreModel {
    let b = BloomModel { name, data, updated_at };
    if has_bloom(m.blooms, name) {
        StoreModel { blooms: m.blooms.update(bloom_index(m.blooms, name), b), ..m }
    } else {
        StoreModel { blooms: m.blooms.push(b), ..m }
    }
}

/// What a code resolves to in the merged view of both namespaces: a
/// canonical code returns its record's URL, an alias resolves through its
/// target id. Canonical codes are tried first, but in a well-formed store
/// the namespaces are disjoint, so at most one branch can match.
pub open spec fn resolve_spec(m: StoreModel, code: Seq<char>) -> Option<Seq<char>> {
    if has_code(m.recs, code) {
        Some(rec_with_code(m.recs, code).url)
    } else if has_alias(m.aliases, code) {
        Some(m.recs[alias_with_code(m.aliases, code).target_id - 1].url)
    } else {
        None
    }
}

/// The merged, stably ordered enumeration of all public codes: canonical
/// codes in insertion order, then alias codes in insertion order.
pub open spec fn union_codes(m: StoreModel) -> Seq<Seq<char>> {
    m.recs.map_values(|r: RecModel| r.code) + m.aliases.map_values(|a: AliasModel| a.alias_code)
}

/// The window `[offset, offset + limit)` of the merged enumeration, clamped
/// to its length.
pub open spec fn list_window(m: StoreModel, offset: int, limit: int) -> Seq<Seq<char>> {
    let all = union_codes(m);
    let lo = if offset > all.len() { all.len() as int } else { offset };
    let hi = if offset + limit > all.len() { all.len() as int } else { offset + limit };
    all.subrange(lo, hi)
}

/// With unique digests, any position carrying digest `d` is the position
/// `digest_index` picks.
pub proof fn lemma_digest_index_is(recs: Seq<RecModel>, d: Seq<u8>, i: int)
    requires
        recs_digests_unique(recs),
        0 <= i < recs.len(),
        recs[i].digest == d,
    ensures
        has_digest(recs, d),
        digest_index(recs, d) == i,
        rec_with_digest(recs, d) == recs[i],
{
    assert(has_digest(recs, d));
    let j = digest_index(recs, d);
    assert(0 <= j < recs.len() && recs[j].digest == d);
    assert(recs[i].digest == recs[j].digest);
}

/// With unique codes, any position carrying code `c` is the position
/// `code_index` picks.
pub proof fn lemma_code_index_is(recs: Seq<RecModel>, c: Seq<char>, i: int)
    requires
        recs_codes_unique(recs),
        0 <= i < recs.len(),
        recs[i].code == c,
    ensures
        has_code(recs, c),
        code_index(recs, c) == i,
        rec_with_code(recs, c) == recs[i],
{
    assert(has_code(recs, c));
    let j = code_index(recs, c);
    assert(0 <= j < recs.len() && recs[j].code == c);
    assert(recs[i].code == recs[j].code);
}

/// With unique alias codes, any position carrying alias code `a` is the
/// position `alias_index` picks.
pub proof fn lemma_alias_index_is(aliases: Seq<AliasModel>, a: Seq<char>, i: int)
    requires
        aliases_unique(aliases),
        0 <= i < aliases.len(),
        aliases[i].alias_code == a,
    ensures
        has_alias(aliases, a),
        alias_index(aliases, a) == i,
        alias_with_code(aliases, a) == aliases[i],
{
    assert(has_alias(aliases, a));
    let j = alias_index(aliases, a);
    assert(0 <= j < aliases.len() && aliases[j].alias_code == a);
    assert(aliases[i].alias_code == aliases[j].alias_code);
}

/// With unique names, any position carrying name `n` is the position
/// `bloom_index` picks.
pub proof fn lemma_bloom_index_is(blooms: Seq<BloomModel>, n: Seq<char>, i: int)
    requires
        blooms_unique(blooms),
        0 <= i < blooms.len(),
        blooms[i].name == n,
    ensures
        has_bloom(blooms, n),
        bloom_index(blooms, n) == i,
        bloom_with_name(blooms, n) == blooms[i],
{
    assert(has_bloom(blooms, n));
    let j = bloom_index(blooms, n);
    assert(0 <= j < blooms.len() && blooms[j].name == n);
    assert(blooms[i].name == blooms[j].name);
}

/// Digest equality between canonical records implies they are one record:
/// at most one canonical row per distinct URL content ever exists.
pub proof fn lemma_digest_determines_record(m: StoreModel, i: int, j: int)
    requires
        m.wf(),
        0 <= i < m.recs.len(),
        0 <= j < m.recs.len(),
        m.recs[i].digest == m.recs[j].digest,
    ensures
        i == j,
        m.recs[i] == m.recs[j],
{
    assert(m.recs[i].digest == m.recs[j].digest);
}

/// Inserting a fresh url under a code taken in neither namespace preserves
/// well-formedness.
pub proof fn lemma_insert_preserves_wf(m: StoreModel, code: Seq<char>, url: Seq<char>)
    requires
        m.wf(),
        !has_digest(m.recs, sha256_of(url)),
        !has_code(m.recs, code),
        !has_alias(m.aliases, code),
    ensures
        insert_spec(m, code, url).wf(),
{
    let recs1 = insert_spec(m, code, url).recs;
    let n = m.recs.len() as int;
    assert forall|i: int| 0 <= i < recs1.len() implies (#[trigger] recs1[i]).id == i + 1 by {
        if i < n {
            assert(recs1[i] == m.recs[i]);
            assert(m.recs[i].id == i + 1);
        }
    }
    assert forall|i: int, j: int| #![trigger recs1[i].code, recs1[j].code]
        0 <= i < recs1.len() && 0 <= j < recs1.len() && i != j
        implies recs1[i].code != recs1[j].code by {
        if i < n && j < n {
            assert(m.recs[i].code != m.recs[j].code);
        } else if i == n && j < n {
            assert(m.recs[j].code != code);
        } else if j == n && i < n {
            assert(m.recs[i].code != code);
        }
    }
    assert forall|i: int, j: int| #![trigger recs1[i].digest, recs1[j].digest]
        0 <= i < recs1.len() && 0 <= j < recs1.len() && i != j
        implies recs1[i].digest != recs1[j].digest by {
        if i < n && j < n {
            assert(m.recs[i].digest != m.recs[j].digest);
        } else if i == n && j < n {
            assert(m.recs[j].digest != sha256_of(url));
        } else if j == n && i < n {
            assert(m.recs[i].digest != sha256_of(url));
        }
    }
    assert forall|i: int| 0 <= i < recs1.len()
        implies (#[trigger] recs1[i]).digest == sha256_of(recs1[i].url) by {
        if i < n {
            assert(m.recs[i].digest == sha256_of(m.recs[i].url));
        }
    }
    assert forall|i: int| 0 <= i < m.aliases.len()
        implies 1 <= (#[trigger] m.aliases[i]).target_id <= recs1.len() by {
        assert(1 <= m.aliases[i].target_id <= m.recs.len());
    }
    assert forall|i: int, j: int| #![trigger recs1[i].code, m.aliases[j].alias_code]
        0 <= i < recs1.len() && 0 <= j < m.aliases.len()
        implies recs1[i].code != m.aliases[j].alias_code by {
        if i < n {
            assert(m.recs[i].code != m.aliases[j].alias_code);
        } else {
            assert(m.aliases[j].alias_code != code);
        }
    }
}

/// Inserting a fresh alias, spelled like no canonical code, for an existing
/// canonical id preserves well-formedness.
pub proof fn lemma_add_alias_preserves_wf(m: StoreModel, alias_code: Seq<char>, target_id: int)
    requires
        m.wf(),
        !has_alias(m.aliases, alias_code),
        !has_code(m.recs, alias_code),
        1 <= target_id <= m.recs.len(),
    ensures
        add_alias_spec(m, alias_code, target_id).wf(),
{
    let aliases1 = add_alias_spec(m, alias_code, target_id).aliases;
    let n = m.aliases.len() as int;
    assert forall|i: int, j: int| #![trigger aliases1[i].alias_code, aliases1[j].alias_code]
        0 <= i < aliases1.len() && 0 <= j < aliases1.len() && i != j
        implies aliases1[i].alias_code != aliases1[j].alias_code by {
        if i < n && j < n {
            assert(m.aliases[i].alias_code != m.aliases[j].alias_code);
        } else if i == n && j < n {
            assert(m.aliases[j].alias_code != alias_code);
        } else if j == n && i < n {
            assert(m.aliases[i].alias_code != alias_code);
        }
    }
    assert forall|i: int| 0 <= i < aliases1.len()
        implies 1 <= (#[trigger] aliases1[i]).target_id <= m.recs.len() by {
        if i < n {
            assert(1 <= m.aliases[i].target_id <= m.recs.len());
        }
    }
    assert forall|i: int, j: int| #![trigger m.recs[i].code, aliases1[j].alias_code]
        0 <= i < m.recs.len() && 0 <= j < aliases1.len()
        implies m.recs[i].code != aliases1[j].alias_code by {
        if j < n {
            assert(m.recs[i].code != m.aliases[j].alias_code);
        } else {
            assert(m.recs[i].code != alias_code);
        }
    }
}

/// Saving a snapshot preserves well-formedness, whether it replaces a row
/// or appends one.
pub proof fn lemma_save_preserves_wf(m: StoreModel, name: Seq<char>, data: Seq<u8>, updated_at: int)
    requires
        m.wf(),
    ensures
        save_spec(m, name, data, updated_at).wf(),
{
    let blooms1 = save_spec(m, name, data, updated_at).blooms;
    let n = m.blooms.len() as int;
    if has_bloom(m.blooms, name) {
        let k = bloom_index(m.blooms, name);
        assert(0 <= k < n && m.blooms[k].name == name);
        assert forall|i: int, j: int| #![trigger blooms1[i].name, blooms1[j].name]
            0 <= i < blooms1.len() && 0 <= j < blooms1.len() && i != j
            implies blooms1[i].name != blooms1[j].name by {
            if i != k && j != k {
                assert(m.blooms[i].name != m.blooms[j].name);
            } else if i == k {
                assert(blooms1[j] == m.blooms[j]);
                assert(m.blooms[j].name != m.blooms[k].name);
            } else {
                assert(blooms1[i] == m.blooms[i]);
                assert(m.blooms[i].name != m.blooms[k].name);
            }
        }
    } else {
        assert forall|i: int, j: int| #![trigger blooms1[i].name, blooms1[j].name]
            0 <= i < blooms1.len() && 0 <= j < blooms1.len() && i != j
            implies blooms1[i].name != blooms1[j].name by {
            if i < n && j < n {
                assert(m.blooms[i].name != m.blooms[j].name);
            } else if i == n && j < n {
                assert(m.blooms[j].name != name);
            } else if j == n && i < n {
                assert(m.blooms[i].name != name);
            }
        }
    }
}

} // verus!
