//! The index of persistent definitions and the changes that it plans.

use vstd::prelude::*;
use vstd::utf8::{encode_utf8, encode_utf8_decode_utf8};

use crate::bytes::{lemma_lex_total, lemma_lex_transitive, lex_less, lex_lt};
use crate::catalog::{
    argument_size, byte_len, decode_arguments, decode_definition, definition_record,
    encode_definition, encode_definition_raw, encoded, encoded_argument_bytes, encoded_raw,
    fields_fault, law_definition_round_trip, parse_arguments, parse_definition,
    validate_definition_fields, BlockedState, CatalogError, CatalogErrorView, CatalogRules,
    PersistentDefinition, PersistentView,
};
use crate::extension::protocol::same_hash;
use crate::id_map::{lemma_row_of, row_of, IdMap};
use crate::kv::message::Platform;
use crate::random::{drew_u64, random_u64, ID_DRAWS};
use crate::text::{same_text, texts};

verus! {

/// A change to the catalog: the definition it is about, and the record to
/// store for it, or none where the record is to go.
#[derive(Debug)]
pub struct Change {
    pub definition: PersistentDefinition,
    pub record: Option<Vec<u8>>,
}

/// What a [`Change`] says.
pub ghost struct ChangeView {
    pub definition: PersistentView,
    pub record: Option<Seq<u8>>,
}

impl View for Change {
    type V = ChangeView;

    open spec fn view(&self) -> ChangeView {
        ChangeView {
            definition: self.definition@,
            record: match self.record {
                Some(b) => Some(b@),
                None => None,
            },
        }
    }
}

/// What the lifecycle of a definition is set to; an absent value stays.
pub struct LifecycleChange<'a> {
    pub enabled: Option<bool>,
    pub desired_running: Option<bool>,
    pub attempt: Option<u64>,
    pub last_running_attempt: Option<u64>,
    pub failure_count: Option<u32>,
    pub next_start_unix_ms: Option<u64>,
    pub blocked: Option<BlockedState<'a>>,
}

/// A switch set, cleared or left alone.
pub open spec fn flag_set(flags: u8, bit: u8, value: Option<bool>) -> u8 {
    match value {
        Some(true) => flags | bit,
        Some(false) => flags & !bit,
        None => flags,
    }
}

fn set_flag(flags: u8, bit: u8, value: Option<bool>) -> (r: u8)
    ensures
        r == flag_set(flags, bit, value),
{
    match value {
        Some(on) => if on {
            flags | bit
        } else {
            flags & !bit
        },
        None => flags,
    }
}

pub open spec fn or_else<T>(v: Option<T>, old_value: T) -> T {
    match v {
        Some(x) => x,
        None => old_value,
    }
}

/// Why a lifecycle change is refused: counters never go back, a running
/// attempt is never later than an attempt, and a diagnostic is bounded.
pub open spec fn lifecycle_fault(
    d: PersistentView,
    c: LifecycleChange<'_>,
    rules: CatalogRules,
) -> Option<CatalogErrorView> {
    let attempt = or_else(c.attempt, d.attempt);
    if attempt < d.attempt {
        Some(CatalogErrorView::Invalid("attempt counter cannot decrease"@))
    } else if c.last_running_attempt matches Some(last) && (last < d.last_running_attempt || last
        > attempt) {
        Some(
            CatalogErrorView::Invalid(
                "last-running attempt must be monotonic and not exceed attempt"@,
            ),
        )
    } else if c.blocked matches Some(BlockedState::Blocked(detail)) && byte_len(detail@)
        > rules.max_detail {
        Some(
            CatalogErrorView::Invalid("persistent blocked diagnostic exceeds protocol limits"@),
        )
    } else {
        None
    }
}

/// The definition after a lifecycle change.
pub open spec fn lifecycle_set(
    d: PersistentView,
    c: LifecycleChange<'_>,
    rules: CatalogRules,
) -> PersistentView {
    PersistentView {
        flags: flag_set(
            flag_set(d.flags, rules.flag_enabled, c.enabled),
            rules.flag_desired_running,
            c.desired_running,
        ),
        attempt: or_else(c.attempt, d.attempt),
        last_running_attempt: or_else(c.last_running_attempt, d.last_running_attempt),
        failure_count: or_else(c.failure_count, d.failure_count),
        next_start_unix_ms: or_else(c.next_start_unix_ms, d.next_start_unix_ms),
        blocked: match c.blocked {
            Some(BlockedState::Blocked(_)) => true,
            Some(BlockedState::Clear) => false,
            None => d.blocked,
        },
        blocked_detail: match c.blocked {
            Some(BlockedState::Blocked(detail)) => detail@,
            Some(BlockedState::Clear) => Seq::empty(),
            None => d.blocked_detail,
        },
        ..d
    }
}

pub open spec fn map_view(m: Map<u64, PersistentDefinition>) -> Map<u64, PersistentView> {
    Map::new(|id: u64| m.dom().contains(id), |id: u64| m[id]@)
}

/// Whether a definition goes by `name`.
pub open spec fn name_taken(m: Map<u64, PersistentView>, name: Seq<char>) -> bool {
    exists|id: u64| #[trigger] m.dom().contains(id) && m[id].name == name
}

/// The id of the definition that goes by `name`.
pub open spec fn id_of_name(m: Map<u64, PersistentView>, name: Seq<char>) -> u64 {
    choose|id: u64| #[trigger] m.dom().contains(id) && m[id].name == name
}

/// Ids and names are both unique, and each definition knows its id.
pub open spec fn index_ok(m: Map<u64, PersistentView>) -> bool {
    &&& forall|id: u64| #[trigger]
        m.dom().contains(id) ==> m[id].extension_id == id && id != 0
    &&& forall|a: u64, b: u64|
        #![trigger m.dom().contains(a), m.dom().contains(b)]
        m.dom().contains(a) && m.dom().contains(b) && m[a].name == m[b].name ==> a == b
}

/// The definition that a creation stores.
pub open spec fn new_definition(
    id: u64,
    hash: Seq<u8>,
    name: Seq<char>,
    args: Seq<Seq<char>>,
    restart: u8,
    rules: CatalogRules,
) -> PersistentView {
    PersistentView {
        extension_id: id,
        definition_revision: 1,
        flags: rules.flag_detach | rules.flag_persist | rules.flag_enabled
            | rules.flag_desired_running,
        restart,
        attempt: 0,
        last_running_attempt: 0,
        failure_count: 0,
        next_start_unix_ms: 0,
        blocked: false,
        blocked_detail: Seq::empty(),
        hash,
        name,
        argument_bytes: argument_size(args),
    }
}

/// The definition that an update stores: a new revision with a clean slate.
pub open spec fn updated_definition(
    d: PersistentView,
    hash: Seq<u8>,
    args: Seq<Seq<char>>,
    restart: u8,
) -> PersistentView {
    PersistentView {
        definition_revision: (d.definition_revision + 1) as u64,
        hash,
        argument_bytes: argument_size(args),
        restart,
        failure_count: 0,
        next_start_unix_ms: 0,
        blocked: false,
        blocked_detail: Seq::empty(),
        ..d
    }
}

/// The change that stores `d` with `args`, or why it cannot be made.
pub open spec fn stored_with(
    d: PersistentView,
    args: Seq<Seq<char>>,
    available: bool,
    rules: CatalogRules,
) -> Result<ChangeView, CatalogErrorView> {
    match encoded(d, args, rules) {
        Err(e) => Err(e),
        Ok(bytes) => if !available {
            Err(CatalogErrorView::Unavailable)
        } else {
            Ok(ChangeView { definition: d, record: Some(bytes) })
        },
    }
}

/// What a creation comes to.
pub open spec fn creation_of(
    m: Map<u64, PersistentView>,
    count: nat,
    max_persistent: nat,
    available: bool,
    id: u64,
    hash: Seq<u8>,
    name: Seq<char>,
    args: Seq<Seq<char>>,
    restart: u8,
    rules: CatalogRules,
) -> Result<ChangeView, CatalogErrorView> {
    match fields_fault(name, args, restart, rules) {
        Some(e) => Err(e),
        None => if id == 0 || name_taken(m, name) || m.dom().contains(id) {
            Err(CatalogErrorView::Conflict)
        } else if count >= max_persistent || argument_size(args) > usize::MAX {
            Err(CatalogErrorView::Budget)
        } else {
            stored_with(
                new_definition(id, hash, name, args, restart, rules),
                args,
                available,
                rules,
            )
        },
    }
}

/// What drawing an id came to.
pub open spec fn drawn(r: Result<u64, CatalogError>) -> Result<u64, CatalogErrorView> {
    match r {
        Ok(id) => Ok(id),
        Err(e) => Err(e@),
    }
}

/// Whether a draw gave an id that cannot name a new definition.
pub open spec fn taken_id(m: Map<u64, PersistentView>, draw: Result<u64, String>) -> bool {
    draw matches Ok(id) && (id == 0 || m.dom().contains(id))
}

/// Whether `r` is what draws from the system's random source came to, where each
/// before the last gave an id that is taken: the id of the last one, the error
/// of the source, or that there were as many draws as are made.
pub open spec fn id_settled(
    m: Map<u64, PersistentView>,
    draws: Seq<Result<u64, String>>,
    r: Result<u64, CatalogErrorView>,
) -> bool {
    &&& 0 < draws.len() <= ID_DRAWS
    &&& forall|i: int| 0 <= i < draws.len() ==> drew_u64(#[trigger] draws[i])
    &&& forall|i: int| 0 <= i < draws.len() - 1 ==> taken_id(m, #[trigger] draws[i])
    &&& match draws.last() {
        Err(e) => r == Err::<u64, _>(CatalogErrorView::Storage(e@)),
        Ok(id) => if taken_id(m, draws.last()) {
            draws.len() == ID_DRAWS && r == Err::<u64, _>(CatalogErrorView::Budget)
        } else {
            r == Ok::<_, CatalogErrorView>(id)
        },
    }
}

/// What an update comes to.
pub open spec fn update_of(
    m: Map<u64, PersistentView>,
    available: bool,
    expected_id: u64,
    expected_revision: u64,
    name: Seq<char>,
    hash: Seq<u8>,
    args: Seq<Seq<char>>,
    restart: u8,
    rules: CatalogRules,
) -> Result<ChangeView, CatalogErrorView> {
    match fields_fault(name, args, restart, rules) {
        Some(e) => Err(e),
        None => if !name_taken(m, name) {
            Err(CatalogErrorView::NotFound)
        } else {
            let d = m[id_of_name(m, name)];
            if d.extension_id != expected_id || d.definition_revision != expected_revision {
                Err(CatalogErrorView::Conflict)
            } else if d.definition_revision == u64::MAX || argument_size(args) > usize::MAX {
                Err(CatalogErrorView::Budget)
            } else {
                stored_with(updated_definition(d, hash, args, restart), args, available, rules)
            }
        },
    }
}

/// Whether the stored definition is the one that `d` changes the lifecycle of.
pub open spec fn same_identity(stored: PersistentView, d: PersistentView) -> bool {
    &&& stored.extension_id == d.extension_id
    &&& stored.definition_revision == d.definition_revision
    &&& stored.hash == d.hash
    &&& stored.name == d.name
    &&& stored.restart == d.restart
    &&& stored.argument_bytes == d.argument_bytes
}

/// What replacing the metadata of a stored record comes to; its arguments are
/// carried over byte for byte.
pub open spec fn metadata_change(
    d: PersistentView,
    stored: Option<Seq<u8>>,
    available: bool,
    rules: CatalogRules,
) -> Result<ChangeView, CatalogErrorView> {
    if !available {
        Err(CatalogErrorView::Unavailable)
    } else {
        match stored {
            None => Err(CatalogErrorView::NotFound),
            Some(bytes) => match parse_definition(bytes, rules) {
                Err(e) => Err(e),
                Ok((old_d, off)) => if !same_identity(old_d, d) {
                    Err(CatalogErrorView::Storage("inconsistent extension definition metadata"@))
                } else {
                    match encoded_raw(
                        d,
                        bytes.subrange(off as int, bytes.len() as int),
                        rules,
                    ) {
                        Err(e) => Err(e),
                        Ok(record) => Ok(ChangeView { definition: d, record: Some(record) }),
                    }
                },
            },
        }
    }
}

/// What loading the arguments of a stored record comes to.
pub open spec fn arguments_of(
    id: u64,
    expected_revision: u64,
    stored: Option<Seq<u8>>,
    available: bool,
    rules: CatalogRules,
) -> Result<Seq<Seq<char>>, CatalogErrorView> {
    if !available {
        Err(CatalogErrorView::Unavailable)
    } else {
        match stored {
            None => Err(CatalogErrorView::NotFound),
            Some(bytes) => match parse_definition(bytes, rules) {
                Err(e) => Err(e),
                Ok((d, off)) => if d.extension_id != id {
                    Err(CatalogErrorView::Storage("inconsistent extension definition identity"@))
                } else if d.definition_revision != expected_revision {
                    Err(CatalogErrorView::Conflict)
                } else {
                    parse_arguments(bytes.subrange(off as int, bytes.len() as int), rules)
                },
            },
        }
    }
}

/// The index after a change.
pub open spec fn changed(m: Map<u64, PersistentView>, c: ChangeView) -> Map<u64, PersistentView> {
    match c.record {
        Some(_) => m.insert(c.definition.extension_id, c.definition),
        None => m.remove(c.definition.extension_id),
    }
}

/// Whether a change keeps ids and names unique.
pub open spec fn admits(m: Map<u64, PersistentView>, c: ChangeView) -> bool {
    c.record is Some ==> {
        &&& c.definition.extension_id != 0
        &&& forall|id: u64| #[trigger]
            m.dom().contains(id) && m[id].name == c.definition.name ==> id
                == c.definition.extension_id
    }
}

/// A row of the store.
pub open spec fn row_view(r: (u64, Vec<u8>)) -> (u64, Seq<u8>) {
    (r.0, r.1@)
}

pub open spec fn duplicate() -> CatalogErrorView {
    CatalogErrorView::Storage("duplicate or inconsistent extension definition"@)
}

/// The index of a store's rows: every row decodes, sits under its own id, and
/// shares neither id nor name with an earlier one.
pub open spec fn opened(rows: Seq<(u64, Seq<u8>)>, rules: CatalogRules) -> Result<
    Map<u64, PersistentView>,
    CatalogErrorView,
>
    decreases rows.len(),
{
    if rows.len() == 0 {
        Ok(Map::empty())
    } else {
        match opened(rows.drop_last(), rules) {
            Err(e) => Err(e),
            Ok(m) => match parse_definition(rows.last().1, rules) {
                Err(e) => Err(e),
                Ok((d, _)) => if d.extension_id != rows.last().0 || m.dom().contains(rows.last().0)
                    || name_taken(m, d.name) {
                    Err(duplicate())
                } else {
                    Ok(m.insert(rows.last().0, d))
                },
            },
        }
    }
}

/// Every prefix of rows that open, opens.
proof fn lemma_opened_prefix(rows: Seq<(u64, Seq<u8>)>, n: int, rules: CatalogRules)
    requires
        0 <= n <= rows.len(),
        opened(rows.take(n), rules) is Err,
    ensures
        opened(rows, rules) == opened(rows.take(n), rules),
    decreases rows.len() - n,
{
    if n == rows.len() {
        assert(rows.take(n) =~= rows);
    } else {
        assert(rows.take(n + 1).drop_last() =~= rows.take(n));
        lemma_opened_prefix(rows, n + 1, rules);
    }
}

/// The index of persistent definitions. `available` tells whether a store
/// stands behind it.
pub struct ExtensionCatalog {
    available: bool,
    records: IdMap<PersistentDefinition>,
    max_persistent: usize,
    rules: CatalogRules,
}

impl ExtensionCatalog {
    pub closed spec fn spec_available(self) -> bool {
        self.available
    }

    /// The definitions by id.
    pub closed spec fn view(self) -> Map<u64, PersistentView> {
        map_view(self.records@)
    }

    /// How many definitions there are.
    pub open spec fn spec_len(self) -> nat {
        self@.dom().len()
    }

    /// There are finitely many definitions.
    pub proof fn lemma_finite(self)
        requires
            self.wf(),
        ensures
            self@.dom().finite(),
    {
        self.lemma_count();
    }

    /// The index has a row for each definition.
    proof fn lemma_count(self)
        requires
            self.wf(),
        ensures
            self@.dom().finite(),
            self.spec_len() == self.records.spec_rows().len(),
    {
        self.records.lemma_count();
        assert(self@.dom() =~= self.records@.dom());
    }

    pub closed spec fn spec_max(self) -> usize {
        self.max_persistent
    }

    pub closed spec fn spec_rules(self) -> CatalogRules {
        self.rules
    }

    pub closed spec fn wf(self) -> bool {
        &&& self.records.wf()
        &&& self.rules.wf()
        &&& index_ok(map_view(self.records@))
    }

    /// Builds the index from the rows of the store, or an empty index without
    /// a store where there are no rows to read.
    pub fn open(
        stored: Option<Vec<(u64, Vec<u8>)>>,
        max_persistent: usize,
        rules: CatalogRules,
    ) -> (r: Result<ExtensionCatalog, CatalogError>)
        requires
            rules.wf(),
        ensures
            match r {
                Ok(c) => {
                    &&& c.wf()
                    &&& c.spec_max() == max_persistent
                    &&& c.spec_rules() == rules
                    &&& c.spec_available() == stored is Some
                    &&& match stored {
                        Some(rows) => opened(
                            rows@.map_values(|r: (u64, Vec<u8>)| row_view(r)),
                            rules,
                        ) == Ok::<_, CatalogErrorView>(c@),
                        None => c@ == Map::<u64, PersistentView>::empty(),
                    }
                },
                Err(e) => stored is Some && opened(
                    stored->0@.map_values(|r: (u64, Vec<u8>)| row_view(r)),
                    rules,
                ) == Err::<Map<u64, PersistentView>, _>(e@),
            },
    {
        let mut records: IdMap<PersistentDefinition> = IdMap::new();
        let rows = match stored {
            None => {
                let c = ExtensionCatalog { available: false, records, max_persistent, rules };
                proof {
                    assert(c@ =~= Map::<u64, PersistentView>::empty());
                }
                return Ok(c);
            },
            Some(rows) => rows,
        };
        let ghost all = rows@.map_values(|r: (u64, Vec<u8>)| row_view(r));
        proof {
            assert(map_view(records@) =~= Map::<u64, PersistentView>::empty());
            assert(all.take(0).len() == 0);
        }
        let mut i: usize = 0;
        while i < rows.len()
            invariant
                i <= rows@.len(),
                rules.wf(),
                records.wf(),
                all == rows@.map_values(|r: (u64, Vec<u8>)| row_view(r)),
                stored is Some && stored->0 == rows,
                index_ok(map_view(records@)),
                opened(all.take(i as int), rules) == Ok::<_, CatalogErrorView>(map_view(records@)),
            decreases rows.len() - i,
        {
            let id: u64 = rows[i].0;
            let ghost before = map_view(records@);
            proof {
                assert(all.take(i + 1).drop_last() =~= all.take(i as int));
                assert(all.take(i + 1).last() == (id, rows@[i as int].1@));
            }
            match decode_definition(rows[i].1.as_slice(), &rules) {
                Err(e) => {
                    proof {
                        lemma_opened_prefix(all, i + 1, rules);
                    }
                    return Err(e);
                },
                Ok((d, _)) => {
                    let present: bool = records.contains(id);
                    let taken: bool = find_name(&records, d.name.as_str()).is_some();
                    if d.extension_id != id || present || taken {
                        proof {
                            lemma_opened_prefix(all, i + 1, rules);
                        }
                        return Err(
                            CatalogError::Storage(
                                "duplicate or inconsistent extension definition".to_owned(),
                            ),
                        );
                    }
                    proof {
                        crate::catalog::lemma_parsed_identity(rows@[i as int].1@, rules);
                        assert(map_view(records@.insert(id, d)) =~= before.insert(id, d@));
                    }
                    records.insert(id, d);
                },
            }
            i = i + 1;
        }
        proof {
            assert(all.take(all.len() as int) =~= all);
        }
        Ok(ExtensionCatalog { available: true, records, max_persistent, rules })
    }

    pub fn get(&self, extension_id: u64) -> (r: Option<&PersistentDefinition>)
        requires
            self.wf(),
        ensures
            match r {
                Some(d) => self@.dom().contains(extension_id) && d@ == self@[extension_id],
                None => !self@.dom().contains(extension_id),
            },
    {
        self.records.get(extension_id)
    }

    pub fn by_name(&self, name: &str) -> (r: Option<&PersistentDefinition>)
        requires
            self.wf(),
        ensures
            match r {
                Some(d) => name_taken(self@, name@) && d@ == self@[id_of_name(self@, name@)]
                    && d.name@ == name@,
                None => !name_taken(self@, name@),
            },
    {
        match find_name(&self.records, name) {
            Some(i) => {
                let d = self.records.value_at(i);
                proof {
                    let id = id_of_name(self@, name@);
                    let here = self.records.spec_rows()[i as int].0;
                    assert(self@.dom().contains(here));
                    assert(self@.dom().contains(id) && self@[id].name == name@);
                }
                Some(d)
            },
            None => None,
        }
    }

    /// Plans the creation of a definition under an id that was drawn before.
    pub fn create_with_id(
        &self,
        extension_id: u64,
        hash: [u8; 32],
        name: &str,
        args: &Vec<String>,
        restart: u8,
    ) -> (r: Result<Change, CatalogError>)
        requires
            self.wf(),
        ensures
            crate::catalog::outcome(r) == creation_of(
                self@,
                self.spec_len(),
                self.spec_max() as nat,
                self.spec_available(),
                extension_id,
                hash@,
                name@,
                texts(args@),
                restart,
                self.spec_rules(),
            ),
            r is Ok ==> admits(self@, r->Ok_0@),
    {
        if let Err(e) = validate_definition_fields(name, args, restart, &self.rules) {
            return Err(e);
        }
        if extension_id == 0 || find_name(&self.records, name).is_some() || self.records.contains(
            extension_id,
        ) {
            return Err(CatalogError::Conflict);
        }
        proof {
            self.lemma_count();
        }
        if self.records.len() >= self.max_persistent {
            return Err(CatalogError::Budget);
        }
        let argument_bytes: usize = match encoded_argument_bytes(args) {
            Err(e) => {
                return Err(e);
            },
            Ok(n) => n,
        };
        let definition = PersistentDefinition {
            extension_id,
            definition_revision: 1,
            flags: self.rules.flag_detach | self.rules.flag_persist | self.rules.flag_enabled
                | self.rules.flag_desired_running,
            restart,
            attempt: 0,
            last_running_attempt: 0,
            failure_count: 0,
            next_start_unix_ms: 0,
            blocked: false,
            blocked_detail: String::new(),
            hash,
            name: name.to_owned(),
            argument_bytes,
        };
        self.store_with(definition, args)
    }

    fn store_with(&self, definition: PersistentDefinition, args: &Vec<String>) -> (r: Result<
        Change,
        CatalogError,
    >)
        requires
            self.wf(),
        ensures
            crate::catalog::outcome(r) == stored_with(
                definition@,
                texts(args@),
                self.spec_available(),
                self.spec_rules(),
            ),
    {
        match encode_definition(&definition, args, &self.rules) {
            Err(e) => Err(e),
            Ok(record) => if !self.available {
                Err(CatalogError::Unavailable)
            } else {
                Ok(Change { definition, record: Some(record) })
            },
        }
    }

    /// Plans a new revision of the definition that goes by `name`, where it is
    /// still the one the caller knows.
    pub fn update(
        &self,
        expected_id: u64,
        expected_revision: u64,
        name: &str,
        hash: [u8; 32],
        args: &Vec<String>,
        restart: u8,
    ) -> (r: Result<Change, CatalogError>)
        requires
            self.wf(),
        ensures
            crate::catalog::outcome(r) == update_of(
                self@,
                self.spec_available(),
                expected_id,
                expected_revision,
                name@,
                hash@,
                texts(args@),
                restart,
                self.spec_rules(),
            ),
            r is Ok ==> admits(self@, r->Ok_0@),
    {
        if let Err(e) = validate_definition_fields(name, args, restart, &self.rules) {
            return Err(e);
        }
        let current = match self.by_name(name) {
            None => {
                return Err(CatalogError::NotFound);
            },
            Some(d) => d,
        };
        if current.extension_id != expected_id || current.definition_revision != expected_revision {
            return Err(CatalogError::Conflict);
        }
        let revision: u64 = match current.definition_revision.checked_add(1) {
            None => {
                return Err(CatalogError::Budget);
            },
            Some(n) => n,
        };
        let argument_bytes: usize = match encoded_argument_bytes(args) {
            Err(e) => {
                return Err(e);
            },
            Ok(n) => n,
        };
        let mut updated = current.copy();
        updated.definition_revision = revision;
        updated.hash = hash;
        updated.argument_bytes = argument_bytes;
        updated.restart = restart;
        updated.failure_count = 0;
        updated.next_start_unix_ms = 0;
        updated.blocked = false;
        updated.blocked_detail = String::new();
        proof {
            let id = id_of_name(self@, name@);
            assert(self@.dom().contains(id));
            assert(updated@.blocked_detail =~= Seq::<char>::empty());
        }
        self.store_with(updated, args)
    }

    /// The definition after a lifecycle change, or why the change is refused.
    pub fn set_lifecycle(&self, extension_id: u64, change: LifecycleChange<'_>) -> (r: Result<
        PersistentDefinition,
        CatalogError,
    >)
        requires
            self.wf(),
        ensures
            match r {
                Ok(d) => {
                    &&& self@.dom().contains(extension_id)
                    &&& lifecycle_fault(self@[extension_id], change, self.spec_rules()) is None
                    &&& d@ == lifecycle_set(self@[extension_id], change, self.spec_rules())
                },
                Err(e) => if self@.dom().contains(extension_id) {
                    lifecycle_fault(self@[extension_id], change, self.spec_rules()) == Some(e@)
                } else {
                    e@ == CatalogErrorView::NotFound
                },
            },
    {
        let mut d = match self.records.get(extension_id) {
            None => {
                return Err(CatalogError::NotFound);
            },
            Some(current) => current.copy(),
        };
        d.flags = set_flag(d.flags, self.rules.flag_enabled, change.enabled);
        d.flags = set_flag(d.flags, self.rules.flag_desired_running, change.desired_running);
        if let Some(attempt) = change.attempt {
            if attempt < d.attempt {
                return Err(CatalogError::Invalid("attempt counter cannot decrease"));
            }
            d.attempt = attempt;
        }
        if let Some(last) = change.last_running_attempt {
            if last < d.last_running_attempt || last > d.attempt {
                return Err(
                    CatalogError::Invalid(
                        "last-running attempt must be monotonic and not exceed attempt",
                    ),
                );
            }
            d.last_running_attempt = last;
        }
        if let Some(n) = change.failure_count {
            d.failure_count = n;
        }
        if let Some(n) = change.next_start_unix_ms {
            d.next_start_unix_ms = n;
        }
        match change.blocked {
            Some(BlockedState::Blocked(detail)) => {
                if detail.as_bytes().len() > self.rules.max_detail {
                    return Err(
                        CatalogError::Invalid(
                            "persistent blocked diagnostic exceeds protocol limits",
                        ),
                    );
                }
                d.blocked = true;
                d.blocked_detail = detail.to_owned();
            },
            Some(BlockedState::Clear) => {
                d.blocked = false;
                d.blocked_detail = String::new();
            },
            None => {},
        }
        Ok(d)
    }

    /// Plans the store of a definition whose lifecycle changed over the record
    /// that is there.
    pub fn replace_metadata(&self, updated: PersistentDefinition, stored: Option<&[u8]>) -> (r: Result<
        Change,
        CatalogError,
    >)
        requires
            self.wf(),
        ensures
            crate::catalog::outcome(r) == metadata_change(
                updated@,
                match stored {
                    Some(b) => Some(b@),
                    None => None,
                },
                self.spec_available(),
                self.spec_rules(),
            ),
            r is Ok && self@.dom().contains(updated.extension_id)
                && self@[updated.extension_id].name == updated.name@ ==> admits(
                self@,
                r->Ok_0@,
            ),
    {
        if !self.available {
            return Err(CatalogError::Unavailable);
        }
        let bytes = match stored {
            None => {
                return Err(CatalogError::NotFound);
            },
            Some(b) => b,
        };
        let (old_definition, off) = match decode_definition(bytes, &self.rules) {
            Err(e) => {
                return Err(e);
            },
            Ok(v) => v,
        };
        let hash_same: bool = same_hash(&old_definition.hash, &updated.hash);
        proof {
            if old_definition.hash@ == updated.hash@ {
                assert(old_definition.hash =~= updated.hash);
            }
        }
        if old_definition.extension_id != updated.extension_id
            || old_definition.definition_revision != updated.definition_revision || !hash_same
            || !same_text(old_definition.name.as_str(), updated.name.as_str())
            || old_definition.restart != updated.restart || old_definition.argument_bytes
            != updated.argument_bytes {
            return Err(
                CatalogError::Storage("inconsistent extension definition metadata".to_owned()),
            );
        }
        let raw = vstd::slice::slice_subrange(bytes, off, bytes.len());
        match encode_definition_raw(&updated, raw, &self.rules) {
            Err(e) => Err(e),
            Ok(record) => Ok(Change { definition: updated, record: Some(record) }),
        }
    }

    /// Plans the removal of a definition.
    pub fn remove(&self, extension_id: u64) -> (r: Result<Change, CatalogError>)
        requires
            self.wf(),
        ensures
            crate::catalog::outcome(r) == if !self@.dom().contains(extension_id) {
                Err::<ChangeView, _>(CatalogErrorView::NotFound)
            } else if !self.spec_available() {
                Err(CatalogErrorView::Unavailable)
            } else {
                Ok(ChangeView { definition: self@[extension_id], record: None })
            },
            r is Ok ==> admits(self@, r->Ok_0@),
    {
        match self.records.get(extension_id) {
            None => Err(CatalogError::NotFound),
            Some(d) => if !self.available {
                Err(CatalogError::Unavailable)
            } else {
                Ok(Change { definition: d.copy(), record: None })
            },
        }
    }

    /// Takes a change into the index, once the store holds it.
    pub fn commit(&mut self, change: Change)
        requires
            old(self).wf(),
            admits(old(self)@, change@),
        ensures
            final(self).wf(),
            final(self)@ == changed(old(self)@, change@),
            final(self).spec_len() == changed(old(self)@, change@).dom().len(),
            final(self).spec_available() == old(self).spec_available(),
            final(self).spec_max() == old(self).spec_max(),
            final(self).spec_rules() == old(self).spec_rules(),
    {
        let ghost before = self.records@;
        let id: u64 = change.definition.extension_id;
        match change.record {
            Some(_) => {
                proof {
                    let d = change.definition;
                    assert(map_view(before.insert(id, d)) =~= map_view(before).insert(id, d@));
                }
                self.records.insert(id, change.definition);
            },
            None => {
                let _ = self.records.remove(id);
                proof {
                    assert(map_view(before.remove(id)) =~= map_view(before).remove(id));
                }
            },
        }
    }

    /// Whether `candidate` can name a new definition.
    pub fn id_is_free(&self, candidate: u64) -> (r: bool)
        requires
            self.wf(),
        ensures
            r == (candidate != 0 && !self@.dom().contains(candidate)),
    {
        candidate != 0 && !self.records.contains(candidate)
    }

    /// Draws random ids until one is free, a bounded number of times. The
    /// system's random source decides which id comes and whether it fails.
    pub fn allocate_id(&self) -> (r: Result<u64, CatalogError>)
        requires
            self.wf(),
        ensures
            match r {
                Ok(id) => id != 0 && !self@.dom().contains(id),
                Err(e) => e@ is Budget || e@ is Storage,
            },
            exists|draws: Seq<Result<u64, String>>| #[trigger] id_settled(self@, draws, drawn(r)),
    {
        let mut draws: usize = 0;
        let ghost mut all: Seq<Result<u64, String>> = Seq::empty();
        while draws < ID_DRAWS
            invariant
                self.wf(),
                draws <= ID_DRAWS,
                all.len() == draws,
                forall|i: int| 0 <= i < all.len() ==> drew_u64(#[trigger] all[i]),
                forall|i: int| 0 <= i < all.len() ==> taken_id(self@, #[trigger] all[i]),
            decreases ID_DRAWS - draws,
        {
            let next = random_u64();
            proof {
                all = all.push(next);
                assert(all.last() == next);
            }
            match next {
                Err(e) => {
                    let r = Err(CatalogError::Storage(e));
                    assert(id_settled(self@, all, drawn(r)));
                    return r;
                },
                Ok(candidate) => {
                    if self.id_is_free(candidate) {
                        assert(id_settled(self@, all, drawn(Ok(candidate))));
                        return Ok(candidate);
                    }
                },
            }
            draws = draws + 1;
        }
        let r = Err(CatalogError::Budget);
        proof {
            assert(taken_id(self@, all[all.len() - 1]));
            assert(id_settled(self@, all, drawn(r)));
        }
        r
    }

    /// Plans the creation of a definition under a random id. Which id that is,
    /// and whether one is found, is up to the system's random source.
    pub fn create(&self, hash: [u8; 32], name: &str, args: &Vec<String>, restart: u8) -> (r: Result<
        Change,
        CatalogError,
    >)
        requires
            self.wf(),
        ensures
            exists|draws: Seq<Result<u64, String>>, id: Result<u64, CatalogErrorView>|
                #[trigger] id_settled(self@, draws, id) && crate::catalog::outcome(r) == (match id {
                    Err(e) => Err::<ChangeView, _>(e),
                    Ok(id) => creation_of(
                        self@,
                        self.spec_len(),
                        self.spec_max() as nat,
                        self.spec_available(),
                        id,
                        hash@,
                        name@,
                        texts(args@),
                        restart,
                        self.spec_rules(),
                    ),
                }),
            r is Ok ==> admits(self@, r->Ok_0@),
    {
        let id = self.allocate_id();
        let ghost draws = choose|draws: Seq<Result<u64, String>>| #[trigger]
            id_settled(self@, draws, drawn(id));
        assert(id_settled(self@, draws, drawn(id)));
        match id {
            Err(e) => Err(e),
            Ok(id) => self.create_with_id(id, hash, name, args, restart),
        }
    }

    /// The arguments of a stored definition, where it is still the revision
    /// that the caller knows.
    pub fn load_arguments(
        &self,
        extension_id: u64,
        expected_revision: u64,
        stored: Option<&[u8]>,
    ) -> (r: Result<Vec<String>, CatalogError>)
        requires
            self.wf(),
        ensures
            match r {
                Ok(v) => arguments_of(
                    extension_id,
                    expected_revision,
                    match stored {
                        Some(b) => Some(b@),
                        None => None,
                    },
                    self.spec_available(),
                    self.spec_rules(),
                ) == Ok::<_, CatalogErrorView>(texts(v@)),
                Err(e) => arguments_of(
                    extension_id,
                    expected_revision,
                    match stored {
                        Some(b) => Some(b@),
                        None => None,
                    },
                    self.spec_available(),
                    self.spec_rules(),
                ) == Err::<Seq<Seq<char>>, _>(e@),
            },
    {
        if !self.available {
            return Err(CatalogError::Unavailable);
        }
        let bytes = match stored {
            None => {
                return Err(CatalogError::NotFound);
            },
            Some(b) => b,
        };
        match decode_definition(bytes, &self.rules) {
            Err(e) => Err(e),
            Ok((d, off)) => {
                if d.extension_id != extension_id {
                    return Err(
                        CatalogError::Storage(
                            "inconsistent extension definition identity".to_owned(),
                        ),
                    );
                }
                if d.definition_revision != expected_revision {
                    return Err(CatalogError::Conflict);
                }
                let raw = vstd::slice::slice_subrange(bytes, off, bytes.len());
                match decode_arguments(raw, true, &self.rules) {
                    Err(e) => Err(e),
                    Ok((_, args)) => Ok(args),
                }
            },
        }
    }

    /// Every definition, ordered by the bytes of its name.
    pub fn list(&self) -> (out: Vec<PersistentDefinition>)
        requires
            self.wf(),
        ensures
            sorted_by_name(out@),
            out@.len() == self.spec_len(),
            forall|d: PersistentView|
                has_view(out@, d) == exists|id: u64| #[trigger]
                    self@.dom().contains(id) && self@[id] == d,
    {
        let mut out: Vec<PersistentDefinition> = Vec::new();
        let mut i: usize = 0;
        let ghost rows = self.records.spec_rows();
        proof {
            self.records.lemma_rows();
            self.lemma_count();
        }
        while i < self.records.len()
            invariant
                i <= rows.len(),
                self.wf(),
                rows == self.records.spec_rows(),
                crate::id_map::ascending(rows),
                out@.len() == i,
                sorted_by_name(out@),
                forall|d: PersistentView|
                    has_view(out@, d) == exists|k: int| 0 <= k < i && (#[trigger] rows[k]).1@ == d,
            decreases rows.len() - i,
        {
            let d = self.records.value_at(i).copy();
            proof {
                assert forall|k: int| 0 <= k < out@.len() implies out@[k].name@ != d.name@ by {
                    assert(has_view(out@, out@[k]@));
                    let j = choose|j: int| 0 <= j < i && (#[trigger] rows[j]).1@ == out@[k]@;
                    lemma_row_of(rows, j);
                    lemma_row_of(rows, i as int);
                    assert(self@.dom().contains(rows[j].0) && self@.dom().contains(
                        rows[i as int].0,
                    ));
                }
            }
            let ghost before = out@;
            insert_by_name(&mut out, d);
            proof {
                assert forall|v: PersistentView|
                    has_view(out@, v) == exists|k: int|
                        0 <= k < i + 1 && (#[trigger] rows[k]).1@ == v by {
                    if has_view(before, v) {
                        let k = choose|k: int| 0 <= k < i && (#[trigger] rows[k]).1@ == v;
                        assert(rows[k].1@ == v);
                    }
                    if v == d@ {
                        assert(rows[i as int].1@ == v);
                    }
                    if exists|k: int| 0 <= k < i + 1 && (#[trigger] rows[k]).1@ == v {
                        let k = choose|k: int| 0 <= k < i + 1 && (#[trigger] rows[k]).1@ == v;
                        if k < i {
                            assert(rows[k].1@ == v);
                            assert(has_view(before, v));
                        }
                    }
                }
            }
            i = i + 1;
        }
        proof {
            assert forall|v: PersistentView|
                has_view(out@, v) == exists|id: u64| #[trigger]
                    self@.dom().contains(id) && self@[id] == v by {
                if has_view(out@, v) {
                    let k = choose|k: int| 0 <= k < rows.len() && (#[trigger] rows[k]).1@ == v;
                    lemma_row_of(rows, k);
                    assert(self@.dom().contains(rows[k].0));
                }
                if exists|id: u64| #[trigger] self@.dom().contains(id) && self@[id] == v {
                    let id = choose|id: u64| #[trigger] self@.dom().contains(id) && self@[id] == v;
                    let k = row_of(rows, id);
                    assert(rows[k].1@ == v);
                }
            }
        }
        out
    }
}

/// The position of the definition that goes by `name`.
fn find_name(records: &IdMap<PersistentDefinition>, name: &str) -> (r: Option<usize>)
    requires
        records.wf(),
    ensures
        r is Some == name_taken(map_view(records@), name@),
        match r {
            Some(i) => i < records.spec_rows().len() && records.spec_rows()[i as int].1.name@
                == name@,
            None => true,
        },
{
    let mut i: usize = 0;
    let ghost rows = records.spec_rows();
    proof {
        records.lemma_rows();
    }
    while i < records.len()
        invariant
            i <= rows.len(),
            records.wf(),
            rows == records.spec_rows(),
            forall|k: int| 0 <= k < i ==> (#[trigger] rows[k]).1.name@ != name@,
        decreases rows.len() - i,
    {
        let d = records.value_at(i);
        if same_text(d.name.as_str(), name) {
            proof {
                let id = rows[i as int].0;
                assert(map_view(records@).dom().contains(id));
                assert(map_view(records@)[id].name == name@);
            }
            return Some(i);
        }
        i = i + 1;
    }
    proof {
        let m = map_view(records@);
        if name_taken(m, name@) {
            let id = id_of_name(m, name@);
            assert(m.dom().contains(id) && m[id].name == name@);
            let k = row_of(rows, id);
            assert(rows[k].1.name@ == name@);
        }
    }
    None
}

/// Definitions in ascending order of the bytes of their names.
pub open spec fn sorted_by_name(s: Seq<PersistentDefinition>) -> bool {
    forall|i: int, j: int|
        0 <= i < j < s.len() ==> lex_lt(
            encode_utf8((#[trigger] s[i]).name@),
            encode_utf8((#[trigger] s[j]).name@),
        )
}

/// Whether some definition of `s` says `v`.
pub open spec fn has_view(s: Seq<PersistentDefinition>, v: PersistentView) -> bool {
    exists|i: int| 0 <= i < s.len() && (#[trigger] s[i])@ == v
}

proof fn lemma_name_bytes_differ(a: Seq<char>, b: Seq<char>)
    requires
        a != b,
    ensures
        encode_utf8(a) != encode_utf8(b),
{
    encode_utf8_decode_utf8(a);
    encode_utf8_decode_utf8(b);
}

/// Puts a definition with a new name where the order has it.
fn insert_by_name(out: &mut Vec<PersistentDefinition>, d: PersistentDefinition)
    requires
        sorted_by_name(old(out)@),
        forall|k: int| 0 <= k < old(out)@.len() ==> (#[trigger] old(out)@[k]).name@ != d.name@,
    ensures
        sorted_by_name(final(out)@),
        final(out)@.len() == old(out)@.len() + 1,
        forall|v: PersistentView| has_view(final(out)@, v) == (has_view(old(out)@, v) || v == d@),
{
    let ghost before = out@;
    let ghost key = encode_utf8(d.name@);
    let mut at: usize = 0;
    while at < out.len() && lex_less(out[at].name.as_str().as_bytes(), d.name.as_str().as_bytes())
        invariant
            at <= out@.len(),
            out@ == before,
            key == encode_utf8(d.name@),
            forall|k: int| 0 <= k < at ==> lex_lt(encode_utf8((#[trigger] before[k]).name@), key),
        decreases out.len() - at,
    {
        at = at + 1;
    }
    out.insert(at, d);
    proof {
        let after = out@;
        assert(after =~= before.insert(at as int, d));
        if at < before.len() {
            lemma_name_bytes_differ(before[at as int].name@, d.name@);
            lemma_lex_total(encode_utf8(before[at as int].name@), key);
            assert(lex_lt(key, encode_utf8(before[at as int].name@)));
        }
        assert forall|i: int, j: int| 0 <= i < j < after.len() implies lex_lt(
            encode_utf8((#[trigger] after[i]).name@),
            encode_utf8((#[trigger] after[j]).name@),
        ) by {
            if i < at && j == at {
                assert(after[i] == before[i]);
            } else if i == at {
                assert(after[j] == before[j - 1]);
                if j - 1 > at {
                    assert(lex_lt(
                        encode_utf8(before[at as int].name@),
                        encode_utf8(before[j - 1].name@),
                    ));
                    lemma_lex_transitive(
                        key,
                        encode_utf8(before[at as int].name@),
                        encode_utf8(before[j - 1].name@),
                    );
                }
            } else if i < at {
                if j < at {
                    assert(after[i] == before[i] && after[j] == before[j]);
                } else {
                    assert(after[i] == before[i] && after[j] == before[j - 1]);
                }
            } else {
                assert(after[i] == before[i - 1] && after[j] == before[j - 1]);
            }
        }
        assert forall|v: PersistentView| has_view(after, v) == (has_view(before, v) || v == d@) by {
            if has_view(before, v) {
                let k = choose|k: int| 0 <= k < before.len() && (#[trigger] before[k])@ == v;
                if k < at {
                    assert(after[k]@ == v);
                } else {
                    assert(after[k + 1]@ == v);
                }
            }
            assert(after[at as int]@ == d@);
            if has_view(after, v) {
                let k = choose|k: int| 0 <= k < after.len() && (#[trigger] after[k])@ == v;
                if k < at {
                    assert(before[k]@ == v);
                } else if k > at {
                    assert(before[k - 1]@ == v);
                }
            }
        }
    }
}

/// A refused change touches nothing and an accepted one keeps ids and names
/// unique.
pub proof fn law_changes_keep_the_index(m: Map<u64, PersistentView>, c: ChangeView)
    requires
        index_ok(m),
        admits(m, c),
    ensures
        index_ok(changed(m, c)),
{
}

/// A definition is created only where there is room for it, so the catalog grows
/// by one and stays within its maximum.
pub proof fn law_creation_stays_within_the_maximum(
    m: Map<u64, PersistentView>,
    max_persistent: nat,
    available: bool,
    id: u64,
    hash: Seq<u8>,
    name: Seq<char>,
    args: Seq<Seq<char>>,
    restart: u8,
    rules: CatalogRules,
    c: ChangeView,
)
    requires
        m.dom().finite(),
        creation_of(
            m,
            m.dom().len(),
            max_persistent,
            available,
            id,
            hash,
            name,
            args,
            restart,
            rules,
        ) == Ok::<_, CatalogErrorView>(c),
    ensures
        changed(m, c).dom().len() == m.dom().len() + 1,
        changed(m, c).dom().len() <= max_persistent,
{
    assert(changed(m, c).dom() =~= m.dom().insert(id));
}

/// No other change adds a definition: an update and a change of lifecycle keep
/// the ids that there are, and a removal takes one away.
pub proof fn law_only_creation_adds(
    m: Map<u64, PersistentView>,
    available: bool,
    id: u64,
    revision: u64,
    name: Seq<char>,
    hash: Seq<u8>,
    args: Seq<Seq<char>>,
    restart: u8,
    d: PersistentView,
    stored: Option<Seq<u8>>,
    rules: CatalogRules,
    c: ChangeView,
)
    requires
        m.dom().finite(),
        index_ok(m),
        ({
            ||| update_of(m, available, id, revision, name, hash, args, restart, rules) == Ok::<
                _,
                CatalogErrorView,
            >(c)
            ||| m.dom().contains(d.extension_id) && metadata_change(d, stored, available, rules)
                == Ok::<_, CatalogErrorView>(c)
            ||| c.record is None
        }),
    ensures
        c.record is Some ==> changed(m, c).dom() == m.dom(),
        changed(m, c).dom().len() <= m.dom().len(),
{
    if c.record is Some {
        if update_of(m, available, id, revision, name, hash, args, restart, rules) == Ok::<
            _,
            CatalogErrorView,
        >(c) {
            assert(m.dom().contains(id_of_name(m, name)));
        }
        assert(changed(m, c).dom() =~= m.dom());
    } else {
        assert(changed(m, c).dom() =~= m.dom().remove(c.definition.extension_id));
    }
}

/// A change is about one definition: every other one stays as it was.
pub proof fn law_changes_are_local(m: Map<u64, PersistentView>, c: ChangeView, other: u64)
    requires
        other != c.definition.extension_id,
    ensures
        changed(m, c).dom().contains(other) == m.dom().contains(other),
        m.dom().contains(other) ==> changed(m, c)[other] == m[other],
{
}

/// Reopening a store whose rows were written by the catalog gives the
/// definitions that were written.
pub proof fn law_reopen(
    defs: Seq<PersistentView>,
    raws: Seq<Seq<u8>>,
    rows: Seq<(u64, Seq<u8>)>,
    rules: CatalogRules,
)
    requires
        rules.wf(),
        defs.len() == raws.len() == rows.len(),
        forall|i: int|
            0 <= i < defs.len() ==> (#[trigger] defs[i]).hash.len() == 32 && encoded_raw(
                defs[i],
                raws[i],
                rules,
            ) is Ok && rows[i] == (
                defs[i].extension_id,
                definition_record(defs[i]) + raws[i],
            ),
        forall|i: int, j: int|
            0 <= i < j < defs.len() ==> (#[trigger] defs[i]).extension_id != (
            #[trigger] defs[j]).extension_id && defs[i].name != defs[j].name,
    ensures
        opened(rows, rules) is Ok,
        forall|id: u64| #[trigger]
            opened(rows, rules)->Ok_0.dom().contains(id) ==> exists|i: int|
                0 <= i < defs.len() && defs[i].extension_id == id && opened(rows, rules)->Ok_0[id]
                    == defs[i],
        forall|i: int|
            0 <= i < defs.len() ==> opened(rows, rules)->Ok_0.dom().contains(
                (#[trigger] defs[i]).extension_id,
            ) && opened(rows, rules)->Ok_0[defs[i].extension_id] == defs[i],
    decreases rows.len(),
{
    if rows.len() > 0 {
        let n = rows.len() - 1;
        law_reopen(defs.drop_last(), raws.drop_last(), rows.drop_last(), rules);
        let m = opened(rows.drop_last(), rules)->Ok_0;
        let d = defs[n];
        law_definition_round_trip(d, raws[n], rules);
        assert forall|i: int| 0 <= i < n implies defs[i] == defs.drop_last()[i] by {}
        if m.dom().contains(d.extension_id) {
            let i = choose|i: int|
                0 <= i < defs.drop_last().len() && defs.drop_last()[i].extension_id
                    == d.extension_id && m[d.extension_id] == defs.drop_last()[i];
            assert(defs[i].extension_id != defs[n].extension_id);
        }
        if name_taken(m, d.name) {
            let id = id_of_name(m, d.name);
            assert(m.dom().contains(id));
            let i = choose|i: int|
                0 <= i < defs.drop_last().len() && defs.drop_last()[i].extension_id == id && m[id]
                    == defs.drop_last()[i];
            assert(defs[i].name != defs[n].name);
        }
        let r = opened(rows, rules)->Ok_0;
        assert(r == m.insert(d.extension_id, d));
        assert forall|id: u64| #[trigger] r.dom().contains(id) implies exists|i: int|
            0 <= i < defs.len() && defs[i].extension_id == id && r[id] == defs[i] by {
            if id == d.extension_id {
                assert(defs[n].extension_id == id && r[id] == defs[n]);
            } else {
                let i = choose|i: int|
                    0 <= i < defs.drop_last().len() && defs.drop_last()[i].extension_id == id
                        && m[id] == defs.drop_last()[i];
                assert(defs[i].extension_id == id && r[id] == defs[i]);
            }
        }
        assert forall|i: int| 0 <= i < defs.len() implies r.dom().contains(
            (#[trigger] defs[i]).extension_id,
        ) && r[defs[i].extension_id] == defs[i] by {
            if i < n {
                assert(defs.drop_last()[i].extension_id == defs[i].extension_id);
                assert(defs[i].extension_id != defs[n].extension_id);
            }
        }
    }
}

/// The setting that the catalog's path starts from.
#[derive(Clone, Copy, Debug, PartialEq, Eq, Structural)]
pub enum CatalogBase {
    ExtensionPath,
    ExtensionDb,
    StateHome,
    Home,
    AppData,
}

/// Which of the settings are there.
#[derive(Clone, Copy, Debug, PartialEq, Eq, Structural)]
pub struct CatalogSettings {
    pub extension_path: bool,
    pub extension_db: bool,
    pub state_home: bool,
    pub home: bool,
    pub app_data: bool,
}

/// Where the catalog is: the setting that its path starts from, and the
/// directory below it in which the server keeps its files. A path that is given
/// is the catalog's own. There is no place where no setting names one.
pub open spec fn catalog_place(platform: Platform, s: CatalogSettings) -> Option<
    (CatalogBase, Seq<char>),
> {
    if s.extension_path {
        Some((CatalogBase::ExtensionPath, ""@))
    } else if s.extension_db {
        Some((CatalogBase::ExtensionDb, ""@))
    } else {
        match platform {
            Platform::MacOs => if s.home {
                Some((CatalogBase::Home, "Library/Application Support"@))
            } else {
                None
            },
            Platform::Unix => if s.state_home {
                Some((CatalogBase::StateHome, ""@))
            } else if s.home {
                Some((CatalogBase::Home, ".local/state"@))
            } else {
                None
            },
            Platform::Windows => if s.app_data {
                Some((CatalogBase::AppData, ""@))
            } else {
                None
            },
        }
    }
}

/// Finds where the catalog is.
pub fn catalog_path(platform: Platform, s: &CatalogSettings) -> (r: Option<
    (CatalogBase, &'static str),
>)
    ensures
        match r {
            Some((base, dir)) => catalog_place(platform, *s) == Some((base, dir@)),
            None => catalog_place(platform, *s) is None,
        },
{
    if s.extension_path {
        return Some((CatalogBase::ExtensionPath, ""));
    }
    if s.extension_db {
        return Some((CatalogBase::ExtensionDb, ""));
    }
    match platform {
        Platform::MacOs => if s.home {
            Some((CatalogBase::Home, "Library/Application Support"))
        } else {
            None
        },
        Platform::Unix => if s.state_home {
            Some((CatalogBase::StateHome, ""))
        } else if s.home {
            Some((CatalogBase::Home, ".local/state"))
        } else {
            None
        },
        Platform::Windows => if s.app_data {
            Some((CatalogBase::AppData, ""))
        } else {
            None
        },
    }
}

} // verus!
