//! Report metadata and context maps: values that `set_*` replaces and
//! `with_*` only fills in when absent.

use vstd::prelude::*;
use crate::types::{Severity, SeverityState, MissingSeverity, HasSeverity};
use crate::values::{ContextValue, ErrorCode};
use crate::ordering::{sorted_order, sort_order, entry_keys, is_sorted_order};

verus! {

/// Index of the entry whose key is `k`.
pub open spec fn key_index(entries: Seq<(String, ContextValue)>, k: Seq<char>) -> Option<int> {
    if exists|i: int| 0 <= i < entries.len() && (#[trigger] entries[i]).0@ == k {
        Some(choose|i: int| 0 <= i < entries.len() && (#[trigger] entries[i]).0@ == k)
    } else {
        None
    }
}

/// No two entries share a key.
pub open spec fn keys_distinct(entries: Seq<(String, ContextValue)>) -> bool {
    forall|i: int, j: int| 0 <= i < j < entries.len() ==> entries[i].0@ != entries[j].0@
}

/// The value stored under `k`.
pub open spec fn lookup(entries: Seq<(String, ContextValue)>, k: Seq<char>) -> Option<ContextValue> {
    match key_index(entries, k) {
        Some(i) => Some(entries[i].1),
        None => None,
    }
}

/// The entries after inserting `v` under `k`: the value of an existing key
/// is replaced in its place, a new key is appended.
pub open spec fn ctx_insert(entries: Seq<(String, ContextValue)>, k: String, v: ContextValue) -> Seq<(String, ContextValue)> {
    match key_index(entries, k@) {
        Some(i) => entries.update(i, (k, v)),
        None => entries.push((k, v)),
    }
}

/// The entries after inserting each of `more`, in order.
pub open spec fn ctx_insert_all(entries: Seq<(String, ContextValue)>, more: Seq<(String, ContextValue)>) -> Seq<(String, ContextValue)>
    decreases more.len(),
{
    if more.len() == 0 {
        entries
    } else {
        let prev = ctx_insert_all(entries, more.drop_last());
        ctx_insert(prev, more.last().0, more.last().1)
    }
}

/// The keys of context entries.
pub open spec fn ctx_keys(entries: Seq<(String, ContextValue)>) -> Seq<Seq<char>> {
    entries.map_values(|e: (String, ContextValue)| e.0@)
}

/// The entries listed by key.
pub open spec fn sorted_ctx(entries: Seq<(String, ContextValue)>) -> Seq<(String, ContextValue)> {
    let order = sorted_order(ctx_keys(entries));
    Seq::new(order.len(), |k: int| entries[order[k] as int])
}

/// Key-value context of a report; keys are unique, and a key keeps the
/// place where it was first inserted.
#[derive(Debug, Default)]
pub struct ContextMap {
    entries: Vec<(String, ContextValue)>,
}

impl ContextMap {
    /// The entries, in insertion order.
    pub closed spec fn entries(&self) -> Seq<(String, ContextValue)> {
        self.entries@
    }

    /// No key occurs twice.
    pub open spec fn well_formed(&self) -> bool {
        keys_distinct(self.entries())
    }

    /// Creates an empty context map.
    pub fn new() -> (m: Self)
        ensures
            m.entries() == Seq::<(String, ContextValue)>::empty(),
            m.well_formed(),
    {
        ContextMap { entries: Vec::new() }
    }

    /// Returns `true` if the context map contains no entries.
    pub fn is_empty(&self) -> (b: bool)
        ensures
            b == (self.entries().len() == 0),
    {
        self.entries.len() == 0
    }

    /// Returns the number of entries in the context map.
    pub fn len(&self) -> (n: usize)
        ensures
            n == self.entries().len(),
    {
        self.entries.len()
    }

    fn find(&self, key: &str) -> (r: Option<usize>)
        requires
            self.well_formed(),
        ensures
            r matches Some(i) ==> key_index(self.entries(), key@) == Some(i as int) && i < self.entries().len(),
            r is None ==> key_index(self.entries(), key@) is None,
    {
        let mut i: usize = 0;
        while i < self.entries.len()
            invariant
                self.well_formed(),
                i <= self.entries@.len(),
                forall|j: int| 0 <= j < i ==> self.entries@[j].0@ != key@,
            decreases self.entries@.len() - i,
        {
            if crate::text::str_eq(self.entries[i].0.as_str(), key) {
                proof {
                    let k = choose|k: int| 0 <= k < self.entries@.len() && (#[trigger] self.entries@[k]).0@ == key@;
                    assert(self.entries@[i as int].0@ == key@);
                    assert(k == i as int);
                }
                return Some(i);
            }
            i += 1;
        }
        None
    }

    /// Returns `true` if the context map holds a value for `key`.
    pub fn contains_key(&self, key: &str) -> (b: bool)
        requires
            self.well_formed(),
        ensures
            b == lookup(self.entries(), key@) is Some,
    {
        self.find(key).is_some()
    }

    /// The value stored under `key`.
    pub fn get(&self, key: &str) -> (r: Option<&ContextValue>)
        requires
            self.well_formed(),
        ensures
            r matches Some(v) ==> lookup(self.entries(), key@) == Some(*v),
            r is None ==> lookup(self.entries(), key@) is None,
    {
        match self.find(key) {
            Some(i) => Some(&self.entries[i].1),
            None => None,
        }
    }

    /// Inserts `value` under `key`, replacing the value of an existing key
    /// in its place, or appending a new entry.
    pub fn insert(&mut self, key: String, value: ContextValue)
        requires
            old(self).well_formed(),
        ensures
            final(self).well_formed(),
            final(self).entries() == ctx_insert(old(self).entries(), key, value),
            lookup(final(self).entries(), key@) == Some(value),
    {
        let ghost before = self.entries@;
        match self.find(key.as_str()) {
            Some(i) => {
                let ghost k0 = key;
                let ghost v0 = value;
                self.entries.set(i, (key, value));
                proof {
                    assert(self.entries@ =~= before.update(i as int, (k0, v0)));
                    assert forall|a: int, b: int| 0 <= a < b < self.entries@.len() implies self.entries@[a].0@ != self.entries@[b].0@ by {
                        if a == i as int {
                            assert(before[i as int].0@ == self.entries@[i as int].0@);
                        }
                        if b == i as int {
                            assert(before[i as int].0@ == self.entries@[i as int].0@);
                        }
                    }
                    assert(self.entries@[i as int].0@ == key@);
                    assert(key_index(self.entries@, key@) == Some(i as int)) by {
                        let k = choose|k: int| 0 <= k < self.entries@.len() && (#[trigger] self.entries@[k]).0@ == key@;
                        assert(0 <= k < self.entries@.len());
                        if k != i as int {
                            assert(self.entries@[k] == before[k]);
                        }
                    }
                }
            },
            None => {
                let ghost k0 = key;
                let ghost v0 = value;
                self.entries.push((key, value));
                proof {
                    assert(self.entries@ =~= before.push((k0, v0)));
                    assert(self.entries@.drop_last() =~= before);
                    assert forall|a: int, b: int| 0 <= a < b < self.entries@.len() implies self.entries@[a].0@ != self.entries@[b].0@ by {
                        if b == before.len() {
                            assert(self.entries@[a] == before[a]);
                        }
                    }
                    let last = before.len() as int;
                    assert(self.entries@[last].0@ == key@);
                    assert(key_index(self.entries@, key@) == Some(last)) by {
                        let k = choose|k: int| 0 <= k < self.entries@.len() && (#[trigger] self.entries@[k]).0@ == key@;
                        if k != last {
                            assert(self.entries@[k] == before[k]);
                        }
                    }
                }
            },
        }
    }

    /// Gives up the entries, in insertion order.
    pub fn into_entries(self) -> (r: Vec<(String, ContextValue)>)
        ensures
            r@ == self.entries(),
    {
        self.entries
    }

    /// The entries listed by key.
    pub fn sorted_entries(&self) -> (r: Vec<&(String, ContextValue)>)
        ensures
            r@.len() == sorted_ctx(self.entries()).len(),
            forall|k: int| 0 <= k < r@.len() ==> *r@[k] == #[trigger] sorted_ctx(self.entries())[k],
    {
        let keys = entry_keys(&self.entries);
        let order = sort_order(&keys);
        proof {
            assert(crate::ordering::keys_view(keys@) == ctx_keys(self.entries@));
        }
        let mut r: Vec<&(String, ContextValue)> = Vec::new();
        let mut i: usize = 0;
        while i < order.len()
            invariant
                is_sorted_order(ctx_keys(self.entries@), order@),
                order@ == sorted_order(ctx_keys(self.entries@)),
                i <= order@.len(),
                r@.len() == i,
                forall|k: int| 0 <= k < i ==> *r@[k] == #[trigger] sorted_ctx(self.entries@)[k],
            decreases order@.len() - i,
        {
            let j = order[i];
            assert(j < self.entries@.len());
            r.push(&self.entries[j]);
            i += 1;
        }
        r
    }

    /// The entries, in insertion order.
    pub fn iter(&self) -> (r: &[(String, ContextValue)])
        ensures
            r@ == self.entries(),
    {
        self.entries.as_slice()
    }
}

/// Error metadata that a global context contributes.
#[derive(Debug, Default)]
pub struct GlobalErrorMeta {
    pub error_code: Option<ErrorCode>,
    pub category: Option<String>,
    pub retryable: Option<bool>,
}

impl GlobalErrorMeta {
    /// Returns `true` if all metadata fields are `None`.
    pub fn is_empty(&self) -> (b: bool)
        ensures
            b == (self.error_code is None && self.category is None && self.retryable is None),
    {
        self.error_code.is_none() && self.category.is_none() && self.retryable.is_none()
    }
}

/// Report metadata carried alongside a diagnostic: its severity typestate,
/// and an error code, category and retryable flag.
#[derive(Debug)]
pub struct ReportMetadata<State: SeverityState> {
    severity: State,
    error_code: Option<ErrorCode>,
    category: Option<String>,
    retryable: Option<bool>,
}

impl<State: SeverityState> ReportMetadata<State> {
    /// The severity typestate.
    pub closed spec fn spec_state(&self) -> State {
        self.severity
    }

    /// The error code, if present.
    pub closed spec fn spec_error_code(&self) -> Option<ErrorCode> {
        self.error_code
    }

    /// The category, if present.
    pub closed spec fn spec_category(&self) -> Option<String> {
        self.category
    }

    /// The retryable flag, if present.
    pub closed spec fn spec_retryable(&self) -> Option<bool> {
        self.retryable
    }

    /// Returns the severity, if the typestate carries one.
    pub fn severity(&self) -> (s: Option<Severity>)
        ensures
            s == self.spec_state().severity_spec(),
    {
        self.severity.severity()
    }

    /// Returns the severity typestate.
    pub fn severity_state(&self) -> (s: State)
        ensures
            s == self.spec_state(),
    {
        self.severity
    }

    /// Returns the error code, if present.
    pub fn error_code(&self) -> (r: Option<&ErrorCode>)
        ensures
            r matches Some(c) ==> self.spec_error_code() == Some(*c),
            r is None ==> self.spec_error_code() is None,
    {
        self.error_code.as_ref()
    }

    /// Returns the category, if present.
    pub fn category(&self) -> (r: Option<&str>)
        ensures
            r matches Some(c) ==> self.spec_category() matches Some(s) && s@ == c@,
            r is None ==> self.spec_category() is None,
    {
        match &self.category {
            Some(c) => Some(c.as_str()),
            None => None,
        }
    }

    /// Returns whether the diagnostic is marked retryable, if that is known.
    pub fn retryable(&self) -> (r: Option<bool>)
        ensures
            r == self.spec_retryable(),
    {
        self.retryable
    }

    /// Sets the error code, replacing any existing value.
    pub fn set_error_code(self, error_code: ErrorCode) -> (m: Self)
        ensures
            m.spec_error_code() == Some(error_code),
            m.spec_category() == self.spec_category(),
            m.spec_retryable() == self.spec_retryable(),
            m.spec_state() == self.spec_state(),
    {
        ReportMetadata { error_code: Some(error_code), ..self }
    }

    /// Sets the error code only if not already set.
    pub fn with_error_code(self, error_code: ErrorCode) -> (m: Self)
        ensures
            m.spec_error_code() == (if self.spec_error_code() is None { Some(error_code) } else { self.spec_error_code() }),
            m.spec_category() == self.spec_category(),
            m.spec_retryable() == self.spec_retryable(),
            m.spec_state() == self.spec_state(),
    {
        if self.error_code.is_none() {
            ReportMetadata { error_code: Some(error_code), ..self }
        } else {
            self
        }
    }

    /// Sets the error code only if not already set, in place.
    pub fn with_error_code_mut(&mut self, error_code: ErrorCode)
        ensures
            final(self).spec_error_code() == (if old(self).spec_error_code() is None { Some(error_code) } else { old(self).spec_error_code() }),
            final(self).spec_category() == old(self).spec_category(),
            final(self).spec_retryable() == old(self).spec_retryable(),
            final(self).spec_state() == old(self).spec_state(),
    {
        if self.error_code.is_none() {
            self.error_code = Some(error_code);
        }
    }

    /// Sets the category, replacing any existing value.
    pub fn set_category(self, category: String) -> (m: Self)
        ensures
            m.spec_category() == Some(category),
            m.spec_error_code() == self.spec_error_code(),
            m.spec_retryable() == self.spec_retryable(),
            m.spec_state() == self.spec_state(),
    {
        ReportMetadata { category: Some(category), ..self }
    }

    /// Sets the category only if not already set.
    pub fn with_category(self, category: String) -> (m: Self)
        ensures
            m.spec_category() == (if self.spec_category() is None { Some(category) } else { self.spec_category() }),
            m.spec_error_code() == self.spec_error_code(),
            m.spec_retryable() == self.spec_retryable(),
            m.spec_state() == self.spec_state(),
    {
        if self.category.is_none() {
            ReportMetadata { category: Some(category), ..self }
        } else {
            self
        }
    }

    /// Sets the category only if not already set, in place.
    pub fn with_category_mut(&mut self, category: String)
        ensures
            final(self).spec_category() == (if old(self).spec_category() is None { Some(category) } else { old(self).spec_category() }),
            final(self).spec_error_code() == old(self).spec_error_code(),
            final(self).spec_retryable() == old(self).spec_retryable(),
            final(self).spec_state() == old(self).spec_state(),
    {
        if self.category.is_none() {
            self.category = Some(category);
        }
    }

    /// Sets the retryability flag, replacing any existing value.
    pub fn set_retryable(self, retryable: bool) -> (m: Self)
        ensures
            m.spec_retryable() == Some(retryable),
            m.spec_error_code() == self.spec_error_code(),
            m.spec_category() == self.spec_category(),
            m.spec_state() == self.spec_state(),
    {
        ReportMetadata { retryable: Some(retryable), ..self }
    }

    /// Sets the retryability flag only if not already set.
    pub fn with_retryable(self, retryable: bool) -> (m: Self)
        ensures
            m.spec_retryable() == (if self.spec_retryable() is None { Some(retryable) } else { self.spec_retryable() }),
            m.spec_error_code() == self.spec_error_code(),
            m.spec_category() == self.spec_category(),
            m.spec_state() == self.spec_state(),
    {
        if self.retryable.is_none() {
            ReportMetadata { retryable: Some(retryable), ..self }
        } else {
            self
        }
    }

    /// Sets the retryability flag only if not already set, in place.
    pub fn with_retryable_mut(&mut self, retryable: bool)
        ensures
            final(self).spec_retryable() == (if old(self).spec_retryable() is None { Some(retryable) } else { old(self).spec_retryable() }),
            final(self).spec_error_code() == old(self).spec_error_code(),
            final(self).spec_category() == old(self).spec_category(),
            final(self).spec_state() == old(self).spec_state(),
    {
        if self.retryable.is_none() {
            self.retryable = Some(retryable);
        }
    }
}

impl ReportMetadata<MissingSeverity> {
    /// Creates metadata with no severity and no fields set.
    pub fn new() -> (m: Self)
        ensures
            m.spec_error_code() is None,
            m.spec_category() is None,
            m.spec_retryable() is None,
    {
        ReportMetadata { severity: MissingSeverity, error_code: None, category: None, retryable: None }
    }

    /// Sets the severity, moving to the typestate that carries one.
    pub fn set_severity(self, severity: Severity) -> (m: ReportMetadata<HasSeverity>)
        ensures
            m.spec_state().spec_severity() == severity,
            m.spec_error_code() == self.spec_error_code(),
            m.spec_category() == self.spec_category(),
            m.spec_retryable() == self.spec_retryable(),
    {
        ReportMetadata {
            severity: HasSeverity::new(severity),
            error_code: self.error_code,
            category: self.category,
            retryable: self.retryable,
        }
    }
}

impl ReportMetadata<HasSeverity> {
    /// Replaces the severity.
    pub fn set_severity(self, severity: Severity) -> (m: Self)
        ensures
            m.spec_state().spec_severity() == severity,
            m.spec_error_code() == self.spec_error_code(),
            m.spec_category() == self.spec_category(),
            m.spec_retryable() == self.spec_retryable(),
    {
        ReportMetadata { severity: HasSeverity::new(severity), ..self }
    }
}

/// After inserting `v` under `k`, the key holds `v`, every other key holds
/// what it held before, and keys stay distinct.
pub proof fn law_context_insert_lookup(entries: Seq<(String, ContextValue)>, k: String, v: ContextValue, other: Seq<char>)
    requires
        keys_distinct(entries),
    ensures
        lookup(ctx_insert(entries, k, v), k@) == Some(v),
        other != k@ ==> lookup(ctx_insert(entries, k, v), other) == lookup(entries, other),
        keys_distinct(ctx_insert(entries, k, v)),
{
    let after = ctx_insert(entries, k, v);
    match key_index(entries, k@) {
        Some(i) => {
            assert(0 <= i < entries.len() && entries[i].0@ == k@);
            assert(after == entries.update(i, (k, v)));
            assert(after[i].0@ == k@);
            assert(key_index(after, k@) == Some(i)) by {
                let j = choose|j: int| 0 <= j < after.len() && (#[trigger] after[j]).0@ == k@;
                if j != i {
                    assert(after[j] == entries[j]);
                }
            }
            if other != k@ {
                if exists|j: int| 0 <= j < entries.len() && (#[trigger] entries[j]).0@ == other {
                    let j = choose|j: int| 0 <= j < entries.len() && (#[trigger] entries[j]).0@ == other;
                    assert(j != i);
                    assert(after[j] == entries[j]);
                    let ja = choose|j: int| 0 <= j < after.len() && (#[trigger] after[j]).0@ == other;
                    assert(ja != i);
                    assert(after[ja] == entries[ja]);
                } else {
                    assert forall|j: int| 0 <= j < after.len() implies (#[trigger] after[j]).0@ != other by {
                        if j != i {
                            assert(after[j] == entries[j]);
                        }
                    }
                }
            }
            assert forall|a: int, b: int| 0 <= a < b < after.len() implies after[a].0@ != after[b].0@ by {
                if a != i {
                    assert(after[a] == entries[a]);
                }
                if b != i {
                    assert(after[b] == entries[b]);
                }
            }
        },
        None => {
            assert(after == entries.push((k, v)));
            let last = entries.len() as int;
            assert(after[last].0@ == k@);
            assert(forall|j: int| 0 <= j < entries.len() ==> (#[trigger] entries[j]).0@ != k@);
            assert(key_index(after, k@) == Some(last)) by {
                let j = choose|j: int| 0 <= j < after.len() && (#[trigger] after[j]).0@ == k@;
                if j != last {
                    assert(after[j] == entries[j]);
                }
            }
            if other != k@ {
                if exists|j: int| 0 <= j < entries.len() && (#[trigger] entries[j]).0@ == other {
                    let j = choose|j: int| 0 <= j < entries.len() && (#[trigger] entries[j]).0@ == other;
                    assert(after[j] == entries[j]);
                    let ja = choose|j: int| 0 <= j < after.len() && (#[trigger] after[j]).0@ == other;
                    assert(ja != last);
                    assert(after[ja] == entries[ja]);
                } else {
                    assert forall|j: int| 0 <= j < after.len() implies (#[trigger] after[j]).0@ != other by {
                        if j != last {
                            assert(after[j] == entries[j]);
                        }
                    }
                }
            }
            assert forall|a: int, b: int| 0 <= a < b < after.len() implies after[a].0@ != after[b].0@ by {
                assert(after[a] == entries[a]);
                if b != last {
                    assert(after[b] == entries[b]);
                }
            }
        },
    }
}

} // verus!
