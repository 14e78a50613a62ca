//! The executable storage core: canonical records, aliases and filter
//! snapshots, with insert-or-retrieve deduplication, a merged resolution
//! view, and full-replacement snapshot persistence.

use vstd::prelude::*;
use vstd::string::StringSliceAdditionalSpecFns;
use crate::digest::{fingerprint, sha256_of};
use crate::model::{
    RecModel, AliasModel, BloomModel, StoreModel,
    has_digest, rec_with_digest, has_code,
    has_alias, has_bloom, bloom_with_name,
    created_rec, insert_spec, add_alias_spec, save_spec, resolve_spec, list_window, union_codes,
    lemma_digest_index_is, lemma_code_index_is, lemma_alias_index_is, lemma_bloom_index_is,
    lemma_insert_preserves_wf, lemma_add_alias_preserves_wf, lemma_save_preserves_wf,
};

verus! {

/// One canonical stored URL: a monotonically assigned id, the unique public
/// short code, the original content, and its unique content digest.
pub struct UrlRecord {
    pub id: i64,
    pub code: String,
    pub url: String,
    pub digest: Vec<u8>,
}

impl View for UrlRecord {
    type V = RecModel;

    open spec fn view(&self) -> RecModel {
        RecModel { id: self.id as int, code: self.code@, url: self.url@, digest: self.digest@ }
    }
}

/// One additional public name for an existing canonical record.
pub struct AliasRecord {
    pub alias_code: String,
    pub target_id: i64,
}

impl View for AliasRecord {
    type V = AliasModel;

    open spec fn view(&self) -> AliasModel {
        AliasModel { alias_code: self.alias_code@, target_id: self.target_id as int }
    }
}

/// One serialized probabilistic-filter snapshot, keyed by a logical name.
pub struct BloomSnapshot {
    pub name: String,
    pub data: Vec<u8>,
    pub updated_at: i64,
}

impl View for BloomSnapshot {
    type V = BloomModel;

    open spec fn view(&self) -> BloomModel {
        BloomModel { name: self.name@, data: self.data@, updated_at: self.updated_at as int }
    }
}

/// The id and code of a canonical record, as lookups report it.
#[derive(Debug)]
pub struct Urls {
    pub id: i64,
    pub code: String,
}

/// What an upsert observed: the record's id, and whether this call created it.
#[derive(Debug)]
pub struct UpsertResult {
    pub id: i64,
    pub created: bool,
}

/// The error taxonomy of the store. Digest-based deduplication is never an
/// error; `Duplicate` is a uniqueness violation on a code or alias code.
#[derive(Debug)]
pub enum DatabaseError {
    NotFound,
    Duplicate,
    ConnectionError(String),
    QueryError(String),
    MigrationError(String),
}

/// The storage core: the canonical namespace, the alias namespace, and the
/// filter snapshots.
pub struct UrlStore {
    records: Vec<UrlRecord>,
    aliases: Vec<AliasRecord>,
    blooms: Vec<BloomSnapshot>,
}

impl View for UrlStore {
    type V = StoreModel;

    closed spec fn view(&self) -> StoreModel {
        StoreModel {
            recs: self.records@.map_values(|r: UrlRecord| r@),
            aliases: self.aliases@.map_values(|a: AliasRecord| a@),
            blooms: self.blooms@.map_values(|b: BloomSnapshot| b@),
        }
    }
}

/// `n` occurs in `h` as a contiguous run of bytes.
pub open spec fn contains_seq(h: Seq<u8>, n: Seq<u8>) -> bool {
    exists|i: int| 0 <= i && i + n.len() <= h.len() && #[trigger] h.subrange(i, i + n.len()) == n
}

/// Whether `n` occurs in `h` starting at position `i`.
fn matches_at(h: &[u8], n: &[u8], i: usize) -> (r: bool)
    requires
        i + n@.len() <= h@.len(),
    ensures
        r == (h@.subrange(i as int, i as int + n@.len() as int) == n@),
{
    let m = n.len();
    let hl = h.len();
    let mut j: usize = 0;
    while j < m
        invariant
            i + m <= hl,
            hl == h@.len(),
            m == n@.len(),
            0 <= j <= m,
            forall|k: int| 0 <= k < j ==> h@[i + k] == n@[k],
        decreases m - j,
    {
        if h[i + j] != n[j] {
            proof {
                assert(h@.subrange(i as int, i as int + m as int)[j as int] == h@[i + j]);
            }
            return false;
        }
        j += 1;
    }
    proof {
        assert(h@.subrange(i as int, i as int + m as int) =~= n@);
    }
    true
}

/// Whether `n` occurs anywhere in `h`.
fn contains_pattern(h: &[u8], n: &[u8]) -> (r: bool)
    ensures
        r == contains_seq(h@, n@),
{
    let hn = h.len();
    let m = n.len();
    if m > hn {
        return false;
    }
    if m == 0 {
        proof {
            assert(h@.subrange(0, 0) =~= n@);
            assert(h@.subrange(0, 0 + n@.len() as int) == n@);
            assert(contains_seq(h@, n@));
        }
        return true;
    }
    let mut i: usize = 0;
    while i <= hn - m
        invariant
            1 <= m <= hn,
            hn == h@.len(),
            m == n@.len(),
            0 <= i <= hn - m + 1,
            forall|k: int| 0 <= k < i ==> #[trigger] h@.subrange(k, k + m as int) != n@,
        decreases hn - m + 1 - i,
    {
        if matches_at(h, n, i) {
            return true;
        }
        i += 1;
    }
    false
}

/// Classifies a store-level error message: whether it reports a uniqueness
/// violation on the canonical code column, the one failure `insert_url`
/// must surface as Duplicate rather than QueryError.
pub fn is_code_unique_violation(msg: &str) -> (r: bool)
    ensures
        r == contains_seq(msg.spec_bytes(), "UNIQUE constraint failed: urls.code".spec_bytes()),
{
    contains_pattern(msg.as_bytes(), "UNIQUE constraint failed: urls.code".as_bytes())
}

/// Classifies a store-level error message: whether it reports a uniqueness
/// violation on the alias code column, the one failure `insert_alias` must
/// surface as Duplicate rather than QueryError.
pub fn is_alias_unique_violation(msg: &str) -> (r: bool)
    ensures
        r == contains_seq(msg.spec_bytes(), "UNIQUE constraint failed: aliases.alias".spec_bytes()),
{
    contains_pattern(msg.as_bytes(), "UNIQUE constraint failed: aliases.alias".as_bytes())
}

/// Whether two byte vectors hold the same bytes.
fn bytes_eq(a: &Vec<u8>, b: &Vec<u8>) -> (r: bool)
    ensures
        r == (a@ == b@),
{
    if a.len() != b.len() {
        proof {
            assert(a@.len() != b@.len());
        }
        return false;
    }
    let n = a.len();
    let mut i: usize = 0;
    while i < n
        invariant
            n == a.len() == b.len(),
            0 <= i <= n,
            forall|k: int| 0 <= k < i ==> a@[k] == b@[k],
        decreases n - i,
    {
        if a[i] != b[i] {
            return false;
        }
        i += 1;
    }
    proof {
        assert(a@ =~= b@);
    }
    true
}

impl UrlStore {
    /// Well-formedness: the model invariants, plus the machine bounds that
    /// keep ids and window arithmetic inside their integer types.
    pub closed spec fn wf(self) -> bool {
        &&& self@.wf()
        &&& self.records@.len() <= i64::MAX
        &&& self.aliases@.len() <= i64::MAX
    }

    /// An empty store.
    pub fn new() -> (s: UrlStore)
        ensures
            s.wf(),
            s@.recs.len() == 0,
            s@.aliases.len() == 0,
            s@.blooms.len() == 0,
    {
        UrlStore { records: Vec::new(), aliases: Vec::new(), blooms: Vec::new() }
    }

    /// The position of the canonical record carrying this digest, if any.
    fn find_by_digest(&self, d: &Vec<u8>) -> (r: Option<usize>)
        ensures
            match r {
                Some(i) => i < self@.recs.len() && self@.recs[i as int].digest == d@,
                None => !has_digest(self@.recs, d@),
            },
    {
        let n = self.records.len();
        let mut i: usize = 0;
        while i < n
            invariant
                n == self.records.len(),
                0 <= i <= n,
                self@.recs.len() == n,
                forall|k: int| 0 <= k < i ==> self@.recs[k].digest != d@,
            decreases n - i,
        {
            if bytes_eq(&self.records[i].digest, d) {
                proof {
                    assert(self@.recs[i as int] == self.records@[i as int]@);
                }
                return Some(i);
            }
            proof {
                assert(self@.recs[i as int] == self.records@[i as int]@);
            }
            i += 1;
        }
        None
    }

    /// The position of the canonical record carrying this code, if any.
    fn find_by_code(&self, code: &String) -> (r: Option<usize>)
        ensures
            match r {
                Some(i) => i < self@.recs.len() && self@.recs[i as int].code == code@,
                None => !has_code(self@.recs, code@),
            },
    {
        let n = self.records.len();
        let mut i: usize = 0;
        while i < n
            invariant
                n == self.records.len(),
                0 <= i <= n,
                self@.recs.len() == n,
                forall|k: int| 0 <= k < i ==> self@.recs[k].code != code@,
            decreases n - i,
        {
            if self.records[i].code == *code {
                proof {
                    assert(self@.recs[i as int] == self.records@[i as int]@);
                }
                return Some(i);
            }
            proof {
                assert(self@.recs[i as int] == self.records@[i as int]@);
            }
            i += 1;
        }
        None
    }

    /// The position of the alias carrying this code, if any.
    fn find_by_alias(&self, alias_code: &String) -> (r: Option<usize>)
        ensures
            match r {
                Some(i) => i < self@.aliases.len() && self@.aliases[i as int].alias_code == alias_code@,
                None => !has_alias(self@.aliases, alias_code@),
            },
    {
        let n = self.aliases.len();
        let mut i: usize = 0;
        while i < n
            invariant
                n == self.aliases.len(),
                0 <= i <= n,
                self@.aliases.len() == n,
                forall|k: int| 0 <= k < i ==> self@.aliases[k].alias_code != alias_code@,
            decreases n - i,
        {
            if self.aliases[i].alias_code == *alias_code {
                proof {
                    assert(self@.aliases[i as int] == self.aliases@[i as int]@);
                }
                return Some(i);
            }
            proof {
                assert(self@.aliases[i as int] == self.aliases@[i as int]@);
            }
            i += 1;
        }
        None
    }

    /// The position of the snapshot carrying this name, if any.
    fn find_bloom(&self, name: &String) -> (r: Option<usize>)
        ensures
            match r {
                Some(i) => i < self@.blooms.len() && self@.blooms[i as int].name == name@,
                None => !has_bloom(self@.blooms, name@),
            },
    {
        let n = self.blooms.len();
        let mut i: usize = 0;
        while i < n
            invariant
                n == self.blooms.len(),
                0 <= i <= n,
                self@.blooms.len() == n,
                forall|k: int| 0 <= k < i ==> self@.blooms[k].name != name@,
            decreases n - i,
        {
            if self.blooms[i].name == *name {
                proof {
                    assert(self@.blooms[i as int] == self.blooms@[i as int]@);
                }
                return Some(i);
            }
            proof {
                assert(self@.blooms[i as int] == self.blooms@[i as int]@);
            }
            i += 1;
        }
        None
    }

    /// Looks a URL up by its content: computes the fingerprint and returns
    /// the id and code of the canonical record carrying it, or NotFound.
    pub fn get_id_by_url(&self, url: &str) -> (r: Result<Urls, DatabaseError>)
        requires
            self.wf(),
        ensures
            self@.wf(),
            (match r {
                Ok(u) => has_digest(self@.recs, sha256_of(url@))
                    && u.id == rec_with_digest(self@.recs, sha256_of(url@)).id
                    && u.code@ == rec_with_digest(self@.recs, sha256_of(url@)).code,
                Err(e) => !has_digest(self@.recs, sha256_of(url@))
                    && (e matches DatabaseError::NotFound),
            }),
    {
        let d = fingerprint(url);
        match self.find_by_digest(&d) {
            Some(i) => {
                proof {
                    lemma_digest_index_is(self@.recs, d@, i as int);
                }
                let rec = &self.records[i];
                proof {
                    assert(self@.recs[i as int] == self.records@[i as int]@);
                }
                Ok(Urls { id: rec.id, code: rec.code.clone() })
            }
            None => Err(DatabaseError::NotFound),
        }
    }

    /// Insert-or-retrieve: stores `url` under `code` if its content is new,
    /// reports the existing record (discarding `code`) if the same content
    /// is already stored, and fails with Duplicate if `code` is already
    /// taken — as the code of a record with different content, or as an
    /// alias. The alias-side check is the symmetric half of the validation
    /// `insert_alias` performs, keeping the two namespaces disjoint so that
    /// a code never matches both at read time.
    pub fn insert_url(&mut self, code: &str, url: &str) -> (r: Result<(UpsertResult, Urls), DatabaseError>)
        requires
            old(self).wf(),
            old(self)@.recs.len() < i64::MAX,
        ensures
            final(self).wf(),
            final(self)@.wf(),
            final(self)@.aliases == old(self)@.aliases,
            final(self)@.blooms == old(self)@.blooms,
            (has_digest(old(self)@.recs, sha256_of(url@)) ==> {
                &&& final(self)@ == old(self)@
                &&& (r matches Ok(p)
                    && p.0.id == rec_with_digest(old(self)@.recs, sha256_of(url@)).id
                    && p.0.created == false
                    && p.1.id == rec_with_digest(old(self)@.recs, sha256_of(url@)).id
                    && p.1.code@ == rec_with_digest(old(self)@.recs, sha256_of(url@)).code)
            }),
            (!has_digest(old(self)@.recs, sha256_of(url@))
                && (has_code(old(self)@.recs, code@) || has_alias(old(self)@.aliases, code@)) ==> {
                &&& final(self)@ == old(self)@
                &&& (r matches Err(DatabaseError::Duplicate))
            }),
            (!has_digest(old(self)@.recs, sha256_of(url@))
                && !has_code(old(self)@.recs, code@) && !has_alias(old(self)@.aliases, code@) ==> {
                &&& final(self)@ == insert_spec(old(self)@, code@, url@)
                &&& (r matches Ok(p)
                    && p.0.id == old(self)@.recs.len() + 1
                    && p.0.created == true
                    && p.1.id == old(self)@.recs.len() + 1
                    && p.1.code@ == code@)
            }),
    {
        let d = fingerprint(url);
        match self.find_by_digest(&d) {
            Some(i) => {
                proof {
                    lemma_digest_index_is(self@.recs, d@, i as int);
                    assert(self@.recs[i as int] == self.records@[i as int]@);
                }
                let rec = &self.records[i];
                let id = rec.id;
                Ok((UpsertResult { id, created: false }, Urls { id, code: rec.code.clone() }))
            }
            None => {
                let code_owned: String = code.to_owned();
                if self.find_by_code(&code_owned).is_some() {
                    return Err(DatabaseError::Duplicate);
                }
                match self.find_by_alias(&code_owned) {
                    Some(_) => Err(DatabaseError::Duplicate),
                    None => {
                        let id: i64 = (self.records.len() as i64) + 1;
                        let url_owned: String = url.to_owned();
                        let code_for_rec: String = code_owned.clone();
                        let new_rec = UrlRecord { id, code: code_for_rec, url: url_owned, digest: d };
                        proof {
                            assert(new_rec@ == created_rec(old(self)@.recs, code@, url@));
                        }
                        self.records.push(new_rec);
                        proof {
                            assert forall|k: int| 0 <= k < old(self)@.recs.len()
                                implies self@.recs[k] == old(self)@.recs[k] by {
                                assert(self.records@[k] == old(self).records@[k]);
                            }
                            assert(self@ =~~= insert_spec(old(self)@, code@, url@));
                            lemma_insert_preserves_wf(old(self)@, code@, url@);
                        }
                        Ok((UpsertResult { id, created: true }, Urls { id, code: code_owned }))
                    }
                }
            }
        }
    }

    /// Resolves a code in the merged view of both namespaces: a canonical
    /// code returns its record's URL, an alias resolves through its target
    /// id (canonical codes take precedence), anything else is NotFound.
    pub fn get_url(&self, code: &str) -> (r: Result<String, DatabaseError>)
        requires
            self.wf(),
        ensures
            self@.wf(),
            (match r {
                Ok(u) => resolve_spec(self@, code@) == Some(u@),
                Err(e) => resolve_spec(self@, code@) is None
                    && (e matches DatabaseError::NotFound),
            }),
    {
        let code_owned: String = code.to_owned();
        match self.find_by_code(&code_owned) {
            Some(i) => {
                proof {
                    lemma_code_index_is(self@.recs, code@, i as int);
                    assert(self@.recs[i as int] == self.records@[i as int]@);
                }
                Ok(self.records[i].url.clone())
            }
            None => {
                match self.find_by_alias(&code_owned) {
                    Some(j) => {
                        proof {
                            lemma_alias_index_is(self@.aliases, code@, j as int);
                            assert(self@.aliases[j as int] == self.aliases@[j as int]@);
                        }
                        let t = self.aliases[j].target_id;
                        let n = self.records.len();
                        proof {
                            assert(self@.aliases[j as int].target_id == t as int);
                            assert(self@.recs.len() == n);
                            assert(1 <= t as int <= n);
                        }
                        let k = (t - 1) as usize;
                        proof {
                            assert(k as int == t - 1);
                            assert(self@.recs[k as int] == self.records@[k as int]@);
                        }
                        Ok(self.records[k].url.clone())
                    }
                    None => Err(DatabaseError::NotFound),
                }
            }
        }
    }

    /// Inserts an additional public name for the canonical record with this
    /// id. Fails with Duplicate if the alias code is taken — in the alias
    /// namespace, or as an existing canonical code: alias codes are
    /// validated against the canonical namespace before insertion, so the
    /// merged read view never has an ambiguous code. Fails with QueryError
    /// if the target id does not exist.
    pub fn insert_alias(&mut self, alias_code: &str, code_id: i64) -> (r: Result<(), DatabaseError>)
        requires
            old(self).wf(),
            old(self)@.aliases.len() < i64::MAX,
        ensures
            final(self).wf(),
            final(self)@.wf(),
            final(self)@.recs == old(self)@.recs,
            final(self)@.blooms == old(self)@.blooms,
            ((has_alias(old(self)@.aliases, alias_code@) || has_code(old(self)@.recs, alias_code@)) ==> {
                &&& final(self)@ == old(self)@
                &&& (r matches Err(DatabaseError::Duplicate))
            }),
            (!has_alias(old(self)@.aliases, alias_code@) && !has_code(old(self)@.recs, alias_code@)
                && !(1 <= code_id <= old(self)@.recs.len()) ==> {
                &&& final(self)@ == old(self)@
                &&& (r matches Err(DatabaseError::QueryError(_)))
            }),
            (!has_alias(old(self)@.aliases, alias_code@) && !has_code(old(self)@.recs, alias_code@)
                && 1 <= code_id <= old(self)@.recs.len() ==> {
                &&& final(self)@ == add_alias_spec(old(self)@, alias_code@, code_id as int)
                &&& (r is Ok)
            }),
    {
        let alias_owned: String = alias_code.to_owned();
        if self.find_by_alias(&alias_owned).is_some() {
            return Err(DatabaseError::Duplicate);
        }
        match self.find_by_code(&alias_owned) {
            Some(_) => Err(DatabaseError::Duplicate),
            None => {
                if code_id < 1 || code_id > self.records.len() as i64 {
                    return Err(DatabaseError::QueryError(
                        "alias target id does not exist".to_owned(),
                    ));
                }
                let new_alias = AliasRecord { alias_code: alias_owned, target_id: code_id };
                self.aliases.push(new_alias);
                proof {
                    assert forall|k: int| 0 <= k < old(self)@.aliases.len()
                        implies self@.aliases[k] == old(self)@.aliases[k] by {
                        assert(self.aliases@[k] == old(self).aliases@[k]);
                    }
                    assert(self@ =~~= add_alias_spec(old(self)@, alias_code@, code_id as int));
                    lemma_add_alias_preserves_wf(old(self)@, alias_code@, code_id as int);
                }
                Ok(())
            }
        }
    }

    /// A stable window of the merged enumeration of all public codes:
    /// canonical codes in insertion order, then alias codes in insertion
    /// order, clamped to the data set's size.
    pub fn list_short_codes(&self, offset: u64, limit: u64) -> (r: Result<Vec<String>, DatabaseError>)
        requires
            self.wf(),
        ensures
            self@.wf(),
            (r matches Ok(v)
                && v@.map_values(|s: String| s@) == list_window(self@, offset as int, limit as int)),
    {
        let n_recs: u64 = self.records.len() as u64;
        let n_aliases: u64 = self.aliases.len() as u64;
        let total: u64 = n_recs + n_aliases;
        let lo: u64 = if offset > total { total } else { offset };
        let remaining: u64 = total - lo;
        let take: u64 = if limit > remaining { remaining } else { limit };
        let hi: u64 = lo + take;
        proof {
            assert(union_codes(self@).len() == total);
        }
        let mut out: Vec<String> = Vec::new();
        let mut i: u64 = lo;
        while i < hi
            invariant
                self.wf(),
                lo <= i <= hi,
                hi <= total,
                total == self.records.len() + self.aliases.len(),
                total == union_codes(self@).len(),
                out@.len() == i - lo,
                forall|k: int| 0 <= k < out@.len()
                    ==> (#[trigger] out@[k])@ == union_codes(self@)[lo + k],
            decreases hi - i,
        {
            if i < self.records.len() as u64 {
                let k = i as usize;
                proof {
                    assert(self@.recs[k as int] == self.records@[k as int]@);
                    assert(union_codes(self@)[i as int] == self@.recs[k as int].code);
                }
                out.push(self.records[k].code.clone());
            } else {
                let k = (i - self.records.len() as u64) as usize;
                proof {
                    assert(self@.aliases[k as int] == self.aliases@[k as int]@);
                    assert(union_codes(self@)[i as int] == self@.aliases[k as int].alias_code);
                }
                out.push(self.aliases[k].alias_code.clone());
            }
            i += 1;
        }
        proof {
            assert(out@.map_values(|s: String| s@) =~~= list_window(self@, offset as int, limit as int));
        }
        Ok(out)
    }

    /// Returns the stored snapshot payload for this name, or the explicit
    /// absence marker; absence is not an error.
    pub fn load_bloom_snapshot(&self, name: &str) -> (r: Result<Option<Vec<u8>>, DatabaseError>)
        requires
            self.wf(),
        ensures
            self@.wf(),
            (match r {
                Ok(Some(d)) => has_bloom(self@.blooms, name@)
                    && d@ == bloom_with_name(self@.blooms, name@).data,
                Ok(None) => !has_bloom(self@.blooms, name@),
                Err(_) => false,
            }),
    {
        let name_owned: String = name.to_owned();
        match self.find_bloom(&name_owned) {
            Some(i) => {
                proof {
                    lemma_bloom_index_is(self@.blooms, name@, i as int);
                    assert(self@.blooms[i as int] == self.blooms@[i as int]@);
                }
                Ok(Some(slice_to_vec(self.blooms[i].data.as_slice())))
            }
            None => Ok(None),
        }
    }

    /// Saves a snapshot under this name: full replacement of any previous
    /// payload (last writer wins), a new row otherwise.
    pub fn save_bloom_snapshot(&mut self, name: &str, data: &[u8], updated_at: i64) -> (r: Result<(), DatabaseError>)
        requires
            old(self).wf(),
        ensures
            final(self).wf(),
            final(self)@.wf(),
            final(self)@ == save_spec(old(self)@, name@, data@, updated_at as int),
            r is Ok,
    {
        let name_owned: String = name.to_owned();
        let payload = slice_to_vec(data);
        let snap = BloomSnapshot { name: name_owned.clone(), data: payload, updated_at };
        match self.find_bloom(&name_owned) {
            Some(i) => {
                proof {
                    lemma_bloom_index_is(self@.blooms, name@, i as int);
                }
                self.blooms[i] = snap;
                proof {
                    assert forall|k: int| 0 <= k < old(self)@.blooms.len() && k != i
                        implies self@.blooms[k] == old(self)@.blooms[k] by {
                        assert(self.blooms@[k] == old(self).blooms@[k]);
                    }
                    assert(self@ =~~= save_spec(old(self)@, name@, data@, updated_at as int));
                    lemma_save_preserves_wf(old(self)@, name@, data@, updated_at as int);
                }
            }
            None => {
                self.blooms.push(snap);
                proof {
                    assert forall|k: int| 0 <= k < old(self)@.blooms.len()
                        implies self@.blooms[k] == old(self)@.blooms[k] by {
                        assert(self.blooms@[k] == old(self).blooms@[k]);
                    }
                    assert(self@ =~~= save_spec(old(self)@, name@, data@, updated_at as int));
                    lemma_save_preserves_wf(old(self)@, name@, data@, updated_at as int);
                }
            }
        }
        Ok(())
    }
}

/// Copies a byte slice into a fresh vector.
fn slice_to_vec(src: &[u8]) -> (r: Vec<u8>)
    ensures
        r@ == src@,
{
    let n = src.len();
    let mut out: Vec<u8> = Vec::new();
    let mut i: usize = 0;
    while i < n
        invariant
            n == src@.len(),
            0 <= i <= n,
            out@.len() == i,
            forall|k: int| 0 <= k < i ==> out@[k] == src@[k],
        decreases n - i,
    {
        out.push(src[i]);
        i += 1;
    }
    proof {
        assert(out@ =~= src@);
    }
    out
}

} // verus!
