//! Index management: settings updates, index metadata and its lifecycle rules.
use std::collections::HashMap;

use vstd::prelude::*;

verus! {

/// How added documents meet documents already present.
#[derive(Clone, Copy, Debug, PartialEq, Eq, Structural)]
pub enum IndexDocumentsMethod {
    ReplaceDocuments,
    UpdateDocuments,
}

/// The format of a documents payload.
#[derive(Clone, Copy, Debug, PartialEq, Eq, Structural)]
pub enum UpdateFormat {
    Csv,
    Json,
    JsonStream,
}

/// Statistics of an applied documents addition.
#[derive(Clone, Copy, Debug, PartialEq, Eq, Structural)]
pub struct DocumentAdditionResult {
    pub nb_documents: usize,
}

/// Facet level parameters.
#[derive(Clone, Copy, Debug, PartialEq, Eq, Structural)]
pub struct Facets {
    pub level_group_size: Option<usize>,
    pub min_level_size: Option<usize>,
}

/// A settings update. Each field is absent (leave unchanged), present and null
/// (reset to the default), or present with a value (set it).
#[derive(Clone, Debug)]
pub struct Settings {
    pub displayed_attributes: Option<Option<Vec<String>>>,
    pub searchable_attributes: Option<Option<Vec<String>>>,
    pub faceted_attributes: Option<Option<HashMap<String, String>>>,
    pub criteria: Option<Option<Vec<String>>>,
}

/// The settings in force on an index; `None` is the default.
#[derive(Clone, Debug)]
pub struct IndexSettingsState {
    pub displayed_attributes: Option<Vec<String>>,
    pub searchable_attributes: Option<Vec<String>>,
    pub faceted_attributes: Option<HashMap<String, String>>,
    pub criteria: Option<Vec<String>>,
}

/// A field after a tri-state update: absent keeps `current`, null or a value replaces it.
pub open spec fn updated_field<T>(update: Option<Option<T>>, current: Option<T>) -> Option<T> {
    match update {
        None => current,
        Some(v) => v,
    }
}

fn apply_field<T>(update: Option<Option<T>>, current: Option<T>) -> (r: Option<T>)
    ensures
        r == updated_field(update, current),
{
    match update {
        None => current,
        Some(v) => v,
    }
}

impl Facets {
    /// Neither level parameter is zero.
    pub open spec fn wf(&self) -> bool {
        &&& (self.level_group_size matches Some(v) ==> v > 0)
        &&& (self.min_level_size matches Some(v) ==> v > 0)
    }

    /// Whether neither level parameter is zero.
    pub fn is_valid(&self) -> (r: bool)
        ensures
            r == self.wf(),
    {
        let a = match self.level_group_size {
            Some(v) => v > 0,
            None => true,
        };
        let b = match self.min_level_size {
            Some(v) => v > 0,
            None => true,
        };
        a && b
    }
}

impl Settings {
    /// An update that leaves every field unchanged.
    pub fn new() -> (r: Self)
        ensures
            r.displayed_attributes is None,
            r.searchable_attributes is None,
            r.faceted_attributes is None,
            r.criteria is None,
    {
        Settings {
            displayed_attributes: None,
            searchable_attributes: None,
            faceted_attributes: None,
            criteria: None,
        }
    }

    /// An update that resets every field to its default.
    pub fn cleared() -> (r: Self)
        ensures
            r.displayed_attributes == Some(None::<Vec<String>>),
            r.searchable_attributes == Some(None::<Vec<String>>),
            r.faceted_attributes == Some(None::<HashMap<String, String>>),
            r.criteria == Some(None::<Vec<String>>),
    {
        Settings {
            displayed_attributes: Some(None),
            searchable_attributes: Some(None),
            faceted_attributes: Some(None),
            criteria: Some(None),
        }
    }

    /// Applies this update to `current`, each field on its own.
    pub fn apply_to(self, current: IndexSettingsState) -> (r: IndexSettingsState)
        ensures
            r.displayed_attributes == updated_field(
                self.displayed_attributes,
                current.displayed_attributes,
            ),
            r.searchable_attributes == updated_field(
                self.searchable_attributes,
                current.searchable_attributes,
            ),
            r.faceted_attributes == updated_field(
                self.faceted_attributes,
                current.faceted_attributes,
            ),
            r.criteria == updated_field(self.criteria, current.criteria),
    {
        IndexSettingsState {
            displayed_attributes: apply_field(
                self.displayed_attributes,
                current.displayed_attributes,
            ),
            searchable_attributes: apply_field(
                self.searchable_attributes,
                current.searchable_attributes,
            ),
            faceted_attributes: apply_field(self.faceted_attributes, current.faceted_attributes),
            criteria: apply_field(self.criteria, current.criteria),
        }
    }
}

impl IndexSettingsState {
    /// Every field at its default.
    pub fn defaults() -> (r: Self)
        ensures
            r.displayed_attributes is None,
            r.searchable_attributes is None,
            r.faceted_attributes is None,
            r.criteria is None,
    {
        IndexSettingsState {
            displayed_attributes: None,
            searchable_attributes: None,
            faceted_attributes: None,
            criteria: None,
        }
    }
}

/// What an index is created or updated with.
#[derive(Clone, Debug)]
pub struct IndexSettings {
    pub name: Option<String>,
    pub primary_key: Option<String>,
}

/// The identity and timestamps of an index. Timestamps are microseconds since
/// the Unix epoch; `uuid` names the underlying index resource.
#[derive(Clone, Debug)]
pub struct IndexMetadata {
    pub name: String,
    pub uuid: u128,
    pub created_at: i64,
    pub updated_at: i64,
    pub primary_key: Option<String>,
}

/// Why an index management call was refused.
#[derive(Clone, Copy, Debug, PartialEq, Eq, Structural)]
pub enum IndexError {
    /// No name, or an empty one, was given for a new index.
    MissingName,
    /// An index of that name exists already.
    IndexAlreadyExists,
    /// No index has that name.
    IndexNotFound,
    /// The name of an index cannot be changed.
    ImmutableName,
    /// The primary key of the index is set already.
    PrimaryKeyAlreadyPresent,
}

/// Whether some index in `s` is named `name`.
pub open spec fn has_index(s: Seq<IndexMetadata>, name: Seq<char>) -> bool {
    exists|i: int| 0 <= i < s.len() && #[trigger] s[i].name@ == name
}

/// A named index, not updated before it was created.
pub open spec fn meta_ok(m: IndexMetadata) -> bool {
    m.name@.len() > 0 && m.created_at <= m.updated_at
}

/// No two indexes in `s` share a name.
pub open spec fn names_unique(s: Seq<IndexMetadata>) -> bool {
    forall|i: int, j: int| 0 <= i < j < s.len() ==> #[trigger] s[i].name@ != #[trigger] s[j].name@
}

/// The position of the index named `name` in `s`.
pub open spec fn index_position(s: Seq<IndexMetadata>, name: Seq<char>) -> int {
    choose|i: int| 0 <= i < s.len() && #[trigger] s[i].name@ == name
}

/// A timestamp later than `t`: `now` if it is, else one more than `t` where that fits.
pub open spec fn bumped(t: i64, now: i64) -> i64 {
    if now > t {
        now
    } else if t < i64::MAX {
        (t + 1) as i64
    } else {
        t
    }
}

/// The result of creating an index with `settings` among `s`.
pub open spec fn create_outcome(
    s: Seq<IndexMetadata>,
    settings: IndexSettings,
    uuid: u128,
    now: i64,
) -> Result<IndexMetadata, IndexError> {
    match settings.name {
        None => Err(IndexError::MissingName),
        Some(name) => if name@.len() == 0 {
            Err(IndexError::MissingName)
        } else if has_index(s, name@) {
            Err(IndexError::IndexAlreadyExists)
        } else {
            Ok(
                IndexMetadata {
                    name,
                    uuid,
                    created_at: now,
                    updated_at: now,
                    primary_key: settings.primary_key,
                },
            )
        },
    }
}

/// The index named `name` in `s` if there is one, else a new one of that name
/// with no primary key.
pub open spec fn ensure_outcome(
    s: Seq<IndexMetadata>,
    name: String,
    uuid: u128,
    now: i64,
) -> Result<IndexMetadata, IndexError> {
    if has_index(s, name@) {
        Ok(s[index_position(s, name@)])
    } else {
        create_outcome(s, IndexSettings { name: Some(name), primary_key: None }, uuid, now)
    }
}

/// The result of updating the index named `name` in `s` with `settings`.
pub open spec fn update_outcome(
    s: Seq<IndexMetadata>,
    name: Seq<char>,
    settings: IndexSettings,
    now: i64,
) -> Result<IndexMetadata, IndexError> {
    if !has_index(s, name) {
        Err(IndexError::IndexNotFound)
    } else if settings.name is Some {
        Err(IndexError::ImmutableName)
    } else {
        let m = s[index_position(s, name)];
        match settings.primary_key {
            None => Ok(m),
            Some(key) => if m.primary_key is Some {
                Err(IndexError::PrimaryKeyAlreadyPresent)
            } else {
                Ok(
                    IndexMetadata {
                        primary_key: Some(key),
                        updated_at: bumped(m.updated_at, now),
                        ..m
                    },
                )
            },
        }
    }
}

/// Relies on chrono's `Utc::now`, read as microseconds since the Unix epoch.
/// Nothing is assumed of the value. `Utc::now` panics if the system clock reads
/// before the Unix epoch, which depends on the machine and not on any input.
#[verifier::external_body]
fn now_micros() -> (r: i64) {
    chrono::Utc::now().timestamp_micros()
}

/// Relies on uuid's `Uuid::new_v4` for a fresh random identifier, as its 128-bit value.
/// Nothing is assumed of the value. `new_v4` panics only if the operating system's
/// random source fails.
#[verifier::external_body]
fn new_uuid() -> (r: u128) {
    uuid::Uuid::new_v4().as_u128()
}

impl IndexMetadata {
    /// A copy of this metadata.
    pub fn copy(&self) -> (r: IndexMetadata)
        ensures
            r == *self,
    {
        IndexMetadata {
            name: self.name.clone(),
            uuid: self.uuid,
            created_at: self.created_at,
            updated_at: self.updated_at,
            primary_key: match &self.primary_key {
                Some(k) => Some(k.clone()),
                None => None,
            },
        }
    }
}

/// The metadata of every known index, keyed by unique non-empty names.
pub struct IndexRegistry {
    indexes: Vec<IndexMetadata>,
}

impl IndexRegistry {
    /// The known indexes, in creation order.
    pub closed spec fn indexes(&self) -> Seq<IndexMetadata> {
        self.indexes@
    }

    pub closed spec fn wf(&self) -> bool {
        &&& forall|i: int| 0 <= i < self.indexes@.len() ==> meta_ok(#[trigger] self.indexes@[i])
        &&& names_unique(self.indexes@)
    }

    /// A registry with no index.
    pub fn new() -> (r: Self)
        ensures
            r.wf(),
            r.indexes() == Seq::<IndexMetadata>::empty(),
    {
        IndexRegistry { indexes: Vec::new() }
    }

    fn position(&self, name: &String) -> (r: Option<usize>)
        ensures
            match r {
                Some(i) => i < self.indexes@.len() && self.indexes@[i as int].name@ == name@,
                None => !has_index(self.indexes@, name@),
            },
    {
        let mut i: usize = 0;
        while i < self.indexes.len()
            invariant
                i <= self.indexes@.len(),
                forall|j: int| 0 <= j < i ==> #[trigger] self.indexes@[j].name@ != name@,
            decreases self.indexes@.len() - i,
        {
            if self.indexes[i].name == *name {
                return Some(i);
            }
            i = i + 1;
        }
        None
    }

    /// Creates an index with the given identity and creation time.
    pub fn create_index_at(&mut self, settings: IndexSettings, uuid: u128, now: i64) -> (r: Result<
        IndexMetadata,
        IndexError,
    >)
        requires
            old(self).wf(),
        ensures
            final(self).wf(),
            r == create_outcome(old(self).indexes(), settings, uuid, now),
            match r {
                Ok(m) => final(self).indexes() == old(self).indexes().push(m),
                Err(_) => final(self).indexes() == old(self).indexes(),
            },
    {
        let name = match settings.name {
            None => {
                return Err(IndexError::MissingName);
            },
            Some(name) => name,
        };
        if name.as_str().is_empty() {
            return Err(IndexError::MissingName);
        }
        if self.position(&name).is_some() {
            return Err(IndexError::IndexAlreadyExists);
        }
        let m = IndexMetadata {
            name,
            uuid,
            created_at: now,
            updated_at: now,
            primary_key: settings.primary_key,
        };
        assert(!has_index(self.indexes@, m.name@));
        assert(meta_ok(m));
        let r = m.copy();
        self.indexes.push(m);
        proof {
            let s = self.indexes@;
            assert forall|i: int, j: int| 0 <= i < j < s.len() implies #[trigger] s[i].name@
                != #[trigger] s[j].name@ by {
                assert(old(self).indexes@[i] == s[i]);
                if j == s.len() - 1 {
                    assert(old(self).indexes@[i].name@ != s[j].name@);
                } else {
                    assert(old(self).indexes@[j] == s[j]);
                }
            }
            assert(names_unique(s));
            assert forall|i: int| 0 <= i < s.len() implies meta_ok(#[trigger] s[i]) by {
                if i < s.len() - 1 {
                    assert(old(self).indexes@[i] == s[i]);
                }
            }
        }
        Ok(r)
    }

    /// Creates an index, with a fresh identity, created now.
    pub fn create_index(&mut self, settings: IndexSettings) -> (r: Result<IndexMetadata, IndexError>)
        requires
            old(self).wf(),
        ensures
            final(self).wf(),
            match r {
                Ok(m) => {
                    &&& final(self).indexes() == old(self).indexes().push(m)
                    &&& settings.name == Some(m.name)
                    &&& m.name@.len() > 0
                    &&& !has_index(old(self).indexes(), m.name@)
                    &&& m.primary_key == settings.primary_key
                    &&& m.created_at == m.updated_at
                },
                Err(e) => {
                    &&& final(self).indexes() == old(self).indexes()
                    &&& Err::<IndexMetadata, IndexError>(e) == create_outcome(
                        old(self).indexes(),
                        settings,
                        0,
                        0,
                    )
                },
            },
    {
        let uuid = new_uuid();
        let now = now_micros();
        self.create_index_at(settings, uuid, now)
    }

    /// The index named `name`, created with the given identity and time if it is missing.
    pub fn ensure_index_at(&mut self, name: &str, uuid: u128, now: i64) -> (r: Result<
        IndexMetadata,
        IndexError,
    >)
        requires
            old(self).wf(),
        ensures
            final(self).wf(),
            exists|n: String|
                n@ == name@ && r == #[trigger] ensure_outcome(old(self).indexes(), n, uuid, now),
            match r {
                Ok(m) => if has_index(old(self).indexes(), name@) {
                    final(self).indexes() == old(self).indexes()
                } else {
                    final(self).indexes() == old(self).indexes().push(m)
                },
                Err(_) => final(self).indexes() == old(self).indexes(),
            },
            r is Err <==> name@.len() == 0,
    {
        let n = name.to_owned();
        match self.position(&n) {
            Some(i) => {
                proof {
                    self.lemma_position(n@, i as int);
                    assert(ensure_outcome(self.indexes@, n, uuid, now) == Ok::<
                        IndexMetadata,
                        IndexError,
                    >(self.indexes@[i as int]));
                    assert(meta_ok(self.indexes@[i as int]));
                }
                Ok(self.indexes[i].copy())
            },
            None => {
                let ghost g = n;
                let r = self.create_index_at(
                    IndexSettings { name: Some(n), primary_key: None },
                    uuid,
                    now,
                );
                assert(r == ensure_outcome(old(self).indexes(), g, uuid, now));
                r
            },
        }
    }

    /// The index named `name`, created now with a fresh identity if it is missing.
    pub fn ensure_index(&mut self, name: &str) -> (r: Result<IndexMetadata, IndexError>)
        requires
            old(self).wf(),
        ensures
            final(self).wf(),
            r is Err <==> name@.len() == 0,
            match r {
                Ok(m) => {
                    &&& m.name@ == name@
                    &&& if has_index(old(self).indexes(), name@) {
                        &&& final(self).indexes() == old(self).indexes()
                        &&& m == old(self).indexes()[index_position(old(self).indexes(), name@)]
                    } else {
                        &&& final(self).indexes() == old(self).indexes().push(m)
                        &&& m.primary_key is None
                        &&& m.created_at == m.updated_at
                    }
                },
                Err(e) => {
                    &&& e == IndexError::MissingName
                    &&& final(self).indexes() == old(self).indexes()
                },
            },
    {
        let uuid = new_uuid();
        let now = now_micros();
        self.ensure_index_at(name, uuid, now)
    }

    /// Sets the primary key of the index `name` at time `now`, if it has none.
    pub fn update_index_at(&mut self, name: &str, settings: IndexSettings, now: i64) -> (r: Result<
        IndexMetadata,
        IndexError,
    >)
        requires
            old(self).wf(),
        ensures
            final(self).wf(),
            r == update_outcome(old(self).indexes(), name@, settings, now),
            match r {
                Ok(m) => final(self).indexes() == old(self).indexes().update(
                    index_position(old(self).indexes(), name@),
                    m,
                ),
                Err(_) => final(self).indexes() == old(self).indexes(),
            },
    {
        let name = name.to_owned();
        let i = match self.position(&name) {
            None => {
                return Err(IndexError::IndexNotFound);
            },
            Some(i) => i,
        };
        proof {
            let p = index_position(self.indexes@, name@);
            assert(has_index(self.indexes@, name@));
            assert(p == i as int) by {
                if p != i as int {
                    if p < i {
                        assert(self.indexes@[p].name@ != self.indexes@[i as int].name@);
                    } else {
                        assert(self.indexes@[i as int].name@ != self.indexes@[p].name@);
                    }
                }
            }
        }
        if settings.name.is_some() {
            return Err(IndexError::ImmutableName);
        }
        let key = match settings.primary_key {
            None => {
                return Ok(self.indexes[i].copy());
            },
            Some(key) => key,
        };
        if self.indexes[i].primary_key.is_some() {
            return Err(IndexError::PrimaryKeyAlreadyPresent);
        }
        let old_meta = self.indexes[i].copy();
        let updated_at = if now > old_meta.updated_at {
            now
        } else if old_meta.updated_at < i64::MAX {
            old_meta.updated_at + 1
        } else {
            old_meta.updated_at
        };
        let m = IndexMetadata {
            name: old_meta.name,
            uuid: old_meta.uuid,
            created_at: old_meta.created_at,
            updated_at,
            primary_key: Some(key),
        };
        let r = m.copy();
        self.indexes.set(i, m);
        proof {
            let s = self.indexes@;
            assert forall|a: int, b: int| 0 <= a < b < s.len() implies #[trigger] s[a].name@
                != #[trigger] s[b].name@ by {
                assert(s[a].name@ == old(self).indexes@[a].name@);
                assert(s[b].name@ == old(self).indexes@[b].name@);
            }
            assert forall|a: int| 0 <= a < s.len() implies meta_ok(#[trigger] s[a]) by {
                assert(meta_ok(old(self).indexes@[a]));
            }
        }
        Ok(r)
    }

    /// Sets the primary key of the index `name`, now, if it has none.
    pub fn update_index(&mut self, name: &str, settings: IndexSettings) -> (r: Result<
        IndexMetadata,
        IndexError,
    >)
        requires
            old(self).wf(),
        ensures
            final(self).wf(),
            exists|now: i64| r == update_outcome(old(self).indexes(), name@, settings, now),
            match r {
                Ok(m) => final(self).indexes() == old(self).indexes().update(
                    index_position(old(self).indexes(), name@),
                    m,
                ),
                Err(_) => final(self).indexes() == old(self).indexes(),
            },
    {
        let now = now_micros();
        self.update_index_at(name, settings, now)
    }


    /// The identity of the index resource named `name`.
    pub fn index(&self, name: &str) -> (r: Option<u128>)
        requires
            self.wf(),
        ensures
            match r {
                Some(u) => has_index(self.indexes(), name@) && u == self.indexes()[index_position(
                    self.indexes(),
                    name@,
                )].uuid,
                None => !has_index(self.indexes(), name@),
            },
    {
        let name = name.to_owned();
        match self.position(&name) {
            None => None,
            Some(i) => {
                proof {
                    self.lemma_position(name@, i as int);
                }
                Some(self.indexes[i].uuid)
            },
        }
    }

    proof fn lemma_position(&self, name: Seq<char>, i: int)
        requires
            self.wf(),
            0 <= i < self.indexes@.len(),
            self.indexes@[i].name@ == name,
        ensures
            has_index(self.indexes@, name),
            index_position(self.indexes@, name) == i,
    {
        let p = index_position(self.indexes@, name);
        assert(has_index(self.indexes@, name));
        if p != i {
            if p < i {
                assert(self.indexes@[p].name@ != self.indexes@[i].name@);
            } else {
                assert(self.indexes@[i].name@ != self.indexes@[p].name@);
            }
        }
    }

    /// Removes the index named `name`.
    pub fn delete_index(&mut self, name: &str) -> (r: Result<(), IndexError>)
        requires
            old(self).wf(),
        ensures
            final(self).wf(),
            r is Ok <==> has_index(old(self).indexes(), name@),
            r is Err ==> r == Err::<(), IndexError>(IndexError::IndexNotFound) && final(self).indexes()
                == old(self).indexes(),
            r is Ok ==> final(self).indexes() == old(self).indexes().remove(
                index_position(old(self).indexes(), name@),
            ),
            !has_index(final(self).indexes(), name@),
    {
        let name = name.to_owned();
        match self.position(&name) {
            None => Err(IndexError::IndexNotFound),
            Some(i) => {
                proof {
                    self.lemma_position(name@, i as int);
                }
                let _ = self.indexes.remove(i);
                proof {
                    let s = self.indexes@;
                    let o = old(self).indexes@;
                    assert forall|a: int, b: int| 0 <= a < b < s.len() implies #[trigger] s[a].name@
                        != #[trigger] s[b].name@ by {
                        let oa = if a < i { a } else { a + 1 };
                        let ob = if b < i { b } else { b + 1 };
                        assert(s[a] == o[oa] && s[b] == o[ob]);
                        assert(o[oa].name@ != o[ob].name@);
                    }
                    assert(names_unique(s));
                    assert forall|a: int| 0 <= a < s.len() implies meta_ok(#[trigger] s[a]) by {
                        let oa = if a < i { a } else { a + 1 };
                        assert(s[a] == o[oa]);
                        assert(meta_ok(o[oa]));
                    }
                    if has_index(s, name@) {
                        let a = choose|a: int| 0 <= a < s.len() && #[trigger] s[a].name@ == name@;
                        let oa = if a < i { a } else { a + 1 };
                        assert(s[a] == o[oa]);
                        if oa < i {
                            assert(o[oa].name@ != o[i as int].name@);
                        } else {
                            assert(o[i as int].name@ != o[oa].name@);
                        }
                    }
                }
                Ok(())
            },
        }
    }

    /// Exchanges the index resources that the names `a` and `b` refer to.
    pub fn swap_indices(&mut self, a: &str, b: &str) -> (r: Result<(), IndexError>)
        requires
            old(self).wf(),
        ensures
            final(self).wf(),
            r is Ok <==> has_index(old(self).indexes(), a@) && has_index(old(self).indexes(), b@),
            r is Err ==> r == Err::<(), IndexError>(IndexError::IndexNotFound) && final(self).indexes()
                == old(self).indexes(),
            r is Ok ==> ({
                let s = old(self).indexes();
                let pa = index_position(s, a@);
                let pb = index_position(s, b@);
                final(self).indexes() == s.update(pa, IndexMetadata { uuid: s[pb].uuid, ..s[pa] }).update(
                    pb,
                    IndexMetadata { uuid: s[pa].uuid, ..s[pb] },
                )
            }),
    {
        let a = a.to_owned();
        let b = b.to_owned();
        let ia = match self.position(&a) {
            None => {
                return Err(IndexError::IndexNotFound);
            },
            Some(i) => i,
        };
        let ib = match self.position(&b) {
            None => {
                return Err(IndexError::IndexNotFound);
            },
            Some(i) => i,
        };
        proof {
            self.lemma_position(a@, ia as int);
            self.lemma_position(b@, ib as int);
        }
        let ua = self.indexes[ia].uuid;
        let ub = self.indexes[ib].uuid;
        let ma = self.indexes[ia].copy();
        let ma = IndexMetadata { uuid: ub, ..ma };
        self.indexes.set(ia, ma);
        let mb = self.indexes[ib].copy();
        let mb = IndexMetadata { uuid: ua, ..mb };
        self.indexes.set(ib, mb);
        proof {
            let s = self.indexes@;
            let o = old(self).indexes@;
            assert forall|x: int| 0 <= x < s.len() implies #[trigger] s[x].name@ == o[x].name@
                && s[x].created_at == o[x].created_at && s[x].updated_at == o[x].updated_at by {}
            assert forall|x: int, y: int| 0 <= x < y < s.len() implies #[trigger] s[x].name@
                != #[trigger] s[y].name@ by {
                assert(o[x].name@ != o[y].name@);
            }
            assert forall|x: int| 0 <= x < s.len() implies meta_ok(#[trigger] s[x]) by {
                assert(meta_ok(o[x]));
            }
            assert(s =~= o.update(ia as int, IndexMetadata { uuid: o[ib as int].uuid, ..o[ia as int] }).update(
                ib as int,
                IndexMetadata { uuid: o[ia as int].uuid, ..o[ib as int] },
            ));
        }
        Ok(())
    }

    /// Copies of the metadata of every index, in creation order.
    pub fn list_indexes(&self) -> (r: Vec<IndexMetadata>)
        ensures
            r@ == self.indexes(),
    {
        let mut out: Vec<IndexMetadata> = Vec::new();
        let mut i: usize = 0;
        while i < self.indexes.len()
            invariant
                i <= self.indexes@.len(),
                out@ == self.indexes@.subrange(0, i as int),
            decreases self.indexes@.len() - i,
        {
            out.push(self.indexes[i].copy());
            i = i + 1;
            assert(out@ =~= self.indexes@.subrange(0, i as int));
        }
        assert(out@ =~= self.indexes@);
        out
    }
}

/// Creating an index without a name, or with an empty one, fails.
pub proof fn lemma_create_needs_name(
    s: Seq<IndexMetadata>,
    settings: IndexSettings,
    uuid: u128,
    now: i64,
)
    requires
        settings.name is None || settings.name->0@.len() == 0,
    ensures
        create_outcome(s, settings, uuid, now) == Err::<IndexMetadata, IndexError>(
            IndexError::MissingName,
        ),
{
}

/// On an index without a primary key: an empty update returns its metadata as it
/// is; setting the key succeeds and moves `updated_at` strictly forward (while it
/// can grow); and a second key assignment afterwards fails.
pub proof fn lemma_primary_key_set_once(
    s: Seq<IndexMetadata>,
    name: Seq<char>,
    key: String,
    key2: String,
    now: i64,
    later: i64,
)
    requires
        names_unique(s),
        has_index(s, name),
        s[index_position(s, name)].primary_key is None,
        s[index_position(s, name)].updated_at < i64::MAX,
    ensures
        update_outcome(s, name, IndexSettings { name: None, primary_key: None }, now) == Ok::<
            IndexMetadata,
            IndexError,
        >(s[index_position(s, name)]),
        ({
            let p = index_position(s, name);
            let r = update_outcome(s, name, IndexSettings { name: None, primary_key: Some(key) }, now);
            &&& r is Ok
            &&& r->Ok_0.updated_at > s[p].updated_at
            &&& r->Ok_0.created_at == s[p].created_at
            &&& r->Ok_0.primary_key == Some(key)
            &&& update_outcome(
                s.update(p, r->Ok_0),
                name,
                IndexSettings { name: None, primary_key: Some(key2) },
                later,
            ) == Err::<IndexMetadata, IndexError>(IndexError::PrimaryKeyAlreadyPresent)
        }),
{
    let p = index_position(s, name);
    let r = update_outcome(s, name, IndexSettings { name: None, primary_key: Some(key) }, now);
    let t = s.update(p, r->Ok_0);
    assert(t[p].name@ == name);
    assert(has_index(t, name));
    let q = index_position(t, name);
    if q != p {
        assert(t[q] == s[q]);
        if q < p {
            assert(s[q].name@ != s[p].name@);
        } else {
            assert(s[p].name@ != s[q].name@);
        }
    }
}

} // verus!
