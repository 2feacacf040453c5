//! Durable desired-state catalog for persistent extensions.
//!
//! The catalog is an index of definitions. A mutation is planned here as the
//! record to store; the caller stores it in one transaction and commits the
//! plan to the index only once that transaction is durable.

use vstd::prelude::*;
use vstd::slice::slice_subrange;
use vstd::string::StringSliceAdditionalSpecFns;
use vstd::utf8::{
    decode_utf8, encode_utf8, encode_utf8_decode_utf8, encode_utf8_valid_utf8, valid_utf8,
};

use crate::bytes::{
    law_le_round_trip, le16, le32, le64, lemma_byte_range_values, lemma_le_bytes_len, push_bytes,
    push_u16, push_u32, push_u64, read_u16, read_u32, read_u64, u16_at, u32_at, u64_at,
};
use crate::text::{chars_of, concat, from_utf8, texts};

pub mod laws;

verus! {

pub const DEFAULT_MAX_PERSISTENT: usize = 128;

pub const RECORD_VERSION_V1: u8 = 1;

pub const RECORD_VERSION_V2: u8 = 2;

pub const RECORD_VERSION: u8 = 3;

/// A change to the blocked state of a definition.
#[derive(Clone, Copy, Debug)]
pub enum BlockedState<'a> {
    Blocked(&'a str),
    Clear,
}

/// What the protocol allows in a definition, and how it numbers the switches.
#[derive(Clone, Copy, Debug, PartialEq, Eq, Structural)]
pub struct CatalogRules {
    pub max_name: usize,
    pub max_arg: usize,
    pub max_args: usize,
    pub max_argument_bytes: usize,
    pub max_detail: usize,
    pub flags_known: u8,
    pub flag_detach: u8,
    pub flag_persist: u8,
    pub flag_enabled: u8,
    pub flag_desired_running: u8,
    pub restart_always: u8,
}

impl CatalogRules {
    /// Lengths fit the fields that a record gives them.
    pub open spec fn wf(self) -> bool {
        &&& self.max_name <= 0xffff
        &&& self.max_detail <= 0xffff
        &&& self.max_args <= 0xffff
        &&& self.max_arg <= 0xffff_ffff
    }
}

/// A persistent definition. Its arguments stay in the store; `argument_bytes`
/// is the size of their encoding.
#[derive(Debug)]
pub struct PersistentDefinition {
    pub extension_id: u64,
    pub definition_revision: u64,
    pub flags: u8,
    pub restart: u8,
    pub attempt: u64,
    pub last_running_attempt: u64,
    pub failure_count: u32,
    pub next_start_unix_ms: u64,
    pub blocked: bool,
    pub blocked_detail: String,
    pub hash: [u8; 32],
    pub name: String,
    pub argument_bytes: usize,
}

/// What a [`PersistentDefinition`] says.
pub ghost struct PersistentView {
    pub extension_id: u64,
    pub definition_revision: u64,
    pub flags: u8,
    pub restart: u8,
    pub attempt: u64,
    pub last_running_attempt: u64,
    pub failure_count: u32,
    pub next_start_unix_ms: u64,
    pub blocked: bool,
    pub blocked_detail: Seq<char>,
    pub hash: Seq<u8>,
    pub name: Seq<char>,
    pub argument_bytes: nat,
}

impl View for PersistentDefinition {
    type V = PersistentView;

    open spec fn view(&self) -> PersistentView {
        PersistentView {
            extension_id: self.extension_id,
            definition_revision: self.definition_revision,
            flags: self.flags,
            restart: self.restart,
            attempt: self.attempt,
            last_running_attempt: self.last_running_attempt,
            failure_count: self.failure_count,
            next_start_unix_ms: self.next_start_unix_ms,
            blocked: self.blocked,
            blocked_detail: self.blocked_detail@,
            hash: self.hash@,
            name: self.name@,
            argument_bytes: self.argument_bytes as nat,
        }
    }
}

impl PersistentDefinition {
    pub fn copy(&self) -> (d: PersistentDefinition)
        ensures
            d@ == self@,
    {
        PersistentDefinition {
            extension_id: self.extension_id,
            definition_revision: self.definition_revision,
            flags: self.flags,
            restart: self.restart,
            attempt: self.attempt,
            last_running_attempt: self.last_running_attempt,
            failure_count: self.failure_count,
            next_start_unix_ms: self.next_start_unix_ms,
            blocked: self.blocked,
            blocked_detail: self.blocked_detail.clone(),
            hash: self.hash,
            name: self.name.clone(),
            argument_bytes: self.argument_bytes,
        }
    }
}

/// Why a catalog request was refused.
#[derive(Debug)]
pub enum CatalogError {
    Unavailable,
    Invalid(&'static str),
    Conflict,
    NotFound,
    Budget,
    Storage(String),
}

/// What a [`CatalogError`] says.
pub ghost enum CatalogErrorView {
    Unavailable,
    Invalid(Seq<char>),
    Conflict,
    NotFound,
    Budget,
    Storage(Seq<char>),
}

impl View for CatalogError {
    type V = CatalogErrorView;

    open spec fn view(&self) -> CatalogErrorView {
        match self {
            CatalogError::Unavailable => CatalogErrorView::Unavailable,
            CatalogError::Invalid(s) => CatalogErrorView::Invalid(s@),
            CatalogError::Conflict => CatalogErrorView::Conflict,
            CatalogError::NotFound => CatalogErrorView::NotFound,
            CatalogError::Budget => CatalogErrorView::Budget,
            CatalogError::Storage(s) => CatalogErrorView::Storage(s@),
        }
    }
}

/// The text of an error.
pub open spec fn error_text(e: CatalogErrorView) -> Seq<char> {
    match e {
        CatalogErrorView::Unavailable => "persistent extension storage is unavailable"@,
        CatalogErrorView::Invalid(detail) => detail,
        CatalogErrorView::Conflict => "persistent extension definition changed"@,
        CatalogErrorView::NotFound => "persistent extension was not found"@,
        CatalogErrorView::Budget => "persistent extension definition budget exhausted"@,
        CatalogErrorView::Storage(detail) => "persistent extension storage failed: "@ + detail,
    }
}

impl CatalogError {
    /// The text of the error.
    pub fn text(&self) -> (r: String)
        ensures
            r@ == error_text(self@),
    {
        match self {
            CatalogError::Unavailable => "persistent extension storage is unavailable".to_owned(),
            CatalogError::Invalid(detail) => (*detail).to_owned(),
            CatalogError::Conflict => "persistent extension definition changed".to_owned(),
            CatalogError::NotFound => "persistent extension was not found".to_owned(),
            CatalogError::Budget => "persistent extension definition budget exhausted".to_owned(),
            CatalogError::Storage(detail) => concat(
                "persistent extension storage failed: ",
                detail.as_str(),
            ),
        }
    }
}

fn storage(text: &str) -> (e: CatalogError)
    ensures
        e@ == CatalogErrorView::Storage(text@),
{
    CatalogError::Storage(text.to_owned())
}

/// What a result says.
pub open spec fn outcome<T: View>(r: Result<T, CatalogError>) -> Result<T::V, CatalogErrorView> {
    match r {
        Ok(v) => Ok(v@),
        Err(e) => Err(e@),
    }
}

/// The characters of the Unicode category `Cc`.
pub open spec fn control_char(c: char) -> bool {
    (c as u32) <= 0x1f || 0x7f <= (c as u32) <= 0x9f
}

/// Whether some character of `s` is a control character.
pub open spec fn has_control(s: Seq<char>) -> bool {
    exists|i: int| 0 <= i < s.len() && control_char(#[trigger] s[i])
}

fn contains_control(s: &str) -> (r: bool)
    ensures
        r == has_control(s@),
{
    let v = chars_of(s);
    let mut i: usize = 0;
    while i < v.len()
        invariant
            i <= v@.len(),
            v@ == s@,
            forall|k: int| 0 <= k < i ==> !control_char(#[trigger] s@[k]),
        decreases v.len() - i,
    {
        let n: u32 = v[i] as u32;
        if n <= 0x1f || (0x7f <= n && n <= 0x9f) {
            proof {
                assert(control_char(s@[i as int]));
            }
            return true;
        }
        i = i + 1;
    }
    false
}

/// How many bytes a text takes.
pub open spec fn byte_len(s: Seq<char>) -> nat {
    encode_utf8(s).len()
}

pub open spec fn bad_fields() -> CatalogErrorView {
    CatalogErrorView::Invalid(
        "persistent extension name, restart policy, or argument count is invalid"@,
    )
}

pub open spec fn bad_arguments() -> CatalogErrorView {
    CatalogErrorView::Invalid("persistent extension arguments exceed protocol limits"@)
}

/// The first argument that breaks a limit decides: each one alone is bounded,
/// and so is their running total.
pub open spec fn arguments_fault(args: Seq<Seq<char>>, total: nat, rules: CatalogRules) -> Option<
    CatalogErrorView,
>
    decreases args.len(),
{
    if args.len() == 0 {
        None
    } else {
        let len = byte_len(args[0]);
        if total + len > usize::MAX {
            Some(CatalogErrorView::Budget)
        } else if len > rules.max_arg || total + len > rules.max_argument_bytes {
            Some(bad_arguments())
        } else {
            arguments_fault(args.subrange(1, args.len() as int), total + len, rules)
        }
    }
}

/// What is wrong with a name, a restart policy and arguments.
pub open spec fn fields_fault(
    name: Seq<char>,
    args: Seq<Seq<char>>,
    restart: u8,
    rules: CatalogRules,
) -> Option<CatalogErrorView> {
    if name.len() == 0 || byte_len(name) > rules.max_name || has_control(name) || restart
        > rules.restart_always || args.len() > rules.max_args {
        Some(bad_fields())
    } else {
        arguments_fault(args, 0, rules)
    }
}

/// A check as an option of what it found.
pub open spec fn fault_of(r: Result<(), CatalogError>) -> Option<CatalogErrorView> {
    match r {
        Ok(_) => None,
        Err(e) => Some(e@),
    }
}

pub fn validate_definition_fields(
    name: &str,
    args: &Vec<String>,
    restart: u8,
    rules: &CatalogRules,
) -> (r: Result<(), CatalogError>)
    ensures
        fault_of(r) == fields_fault(name@, texts(args@), restart, *rules),
{
    if name.is_empty() || name.as_bytes().len() > rules.max_name || contains_control(name) || restart
        > rules.restart_always || args.len() > rules.max_args {
        return Err(
            CatalogError::Invalid(
                "persistent extension name, restart policy, or argument count is invalid",
            ),
        );
    }
    let mut total: usize = 0;
    let mut i: usize = 0;
    let ghost all = texts(args@);
    proof {
        assert(all.subrange(0, all.len() as int) =~= all);
    }
    while i < args.len()
        invariant
            i <= args@.len(),
            all == texts(args@),
            fields_fault(name@, all, restart, *rules) == arguments_fault(all, 0, *rules),
            arguments_fault(all, 0, *rules) == arguments_fault(
                all.subrange(i as int, all.len() as int),
                total as nat,
                *rules,
            ),
        decreases args.len() - i,
    {
        let len: usize = args[i].as_str().as_bytes().len();
        proof {
            let rest = all.subrange(i as int, all.len() as int);
            assert(rest[0] == args@[i as int]@);
            assert(rest.subrange(1, rest.len() as int) =~= all.subrange(i + 1, all.len() as int));
        }
        match total.checked_add(len) {
            None => {
                return Err(CatalogError::Budget);
            },
            Some(sum) => {
                total = sum;
            },
        }
        if len > rules.max_arg || total > rules.max_argument_bytes {
            return Err(
                CatalogError::Invalid("persistent extension arguments exceed protocol limits"),
            );
        }
        i = i + 1;
    }
    Ok(())
}

/// The bytes of an argument list without its count.
pub open spec fn list_bytes(args: Seq<Seq<char>>) -> Seq<u8>
    decreases args.len(),
{
    if args.len() == 0 {
        Seq::empty()
    } else {
        list_bytes(args.drop_last()) + le32(byte_len(args.last()) as u32) + encode_utf8(args.last())
    }
}

/// An argument list as stored: its count, then each argument behind its length.
pub open spec fn argument_record(args: Seq<Seq<char>>) -> Seq<u8> {
    le16(args.len() as u16) + list_bytes(args)
}

/// The size of an argument list as stored.
pub open spec fn argument_size(args: Seq<Seq<char>>) -> nat
    decreases args.len(),
{
    if args.len() == 0 {
        2
    } else {
        argument_size(args.drop_last()) + 4 + byte_len(args.last())
    }
}

pub proof fn lemma_argument_size(args: Seq<Seq<char>>)
    ensures
        argument_record(args).len() == argument_size(args),
    decreases args.len(),
{
    lemma_le_bytes_len(args.len() as u16 as nat, 2);
    if args.len() > 0 {
        lemma_argument_size(args.drop_last());
        lemma_le_bytes_len(args.drop_last().len() as u16 as nat, 2);
        lemma_le_bytes_len(byte_len(args.last()) as u32 as nat, 4);
    }
}

proof fn lemma_argument_size_grows(args: Seq<Seq<char>>, i: int)
    requires
        0 <= i <= args.len(),
    ensures
        argument_size(args.take(i)) <= argument_size(args),
    decreases args.len(),
{
    if i < args.len() {
        lemma_argument_size_grows(args.drop_last(), i);
        assert(args.drop_last().take(i) =~= args.take(i));
    } else {
        assert(args.take(i) =~= args);
    }
}

/// The size of an argument list as stored, where it can be counted.
pub fn encoded_argument_bytes(args: &Vec<String>) -> (r: Result<usize, CatalogError>)
    ensures
        match r {
            Ok(n) => n as nat == argument_size(texts(args@)),
            Err(e) => e@ == CatalogErrorView::Budget && argument_size(texts(args@)) > usize::MAX,
        },
{
    let ghost all = texts(args@);
    let mut total: usize = 2;
    let mut i: usize = 0;
    proof {
        assert(all.take(0).len() == 0);
    }
    while i < args.len()
        invariant
            i <= args@.len(),
            all == texts(args@),
            total as nat == argument_size(all.take(i as int)),
        decreases args.len() - i,
    {
        let len: usize = args[i].as_str().as_bytes().len();
        proof {
            assert(all.take(i + 1).drop_last() =~= all.take(i as int));
            lemma_argument_size_grows(all, i + 1);
        }
        match total.checked_add(4) {
            None => {
                return Err(CatalogError::Budget);
            },
            Some(sum) => match sum.checked_add(len) {
                None => {
                    return Err(CatalogError::Budget);
                },
                Some(next) => {
                    total = next;
                },
            },
        }
        i = i + 1;
    }
    proof {
        assert(all.take(all.len() as int) =~= all);
    }
    Ok(total)
}

/// Whether a definition can stand: it has an identity, carries the switches of
/// a persistent definition and no unknown one, never claims a later running
/// attempt than an attempt, and explains itself only while blocked.
pub open spec fn identity_ok(d: PersistentView, rules: CatalogRules) -> bool {
    let both = rules.flag_detach | rules.flag_persist;
    &&& d.extension_id != 0
    &&& d.definition_revision != 0
    &&& d.flags & !rules.flags_known == 0
    &&& d.flags & both == both
    &&& d.last_running_attempt <= d.attempt
    &&& byte_len(d.blocked_detail) <= rules.max_detail
    &&& d.blocked || d.blocked_detail.len() == 0
}

fn identity_valid(d: &PersistentDefinition, rules: &CatalogRules) -> (r: bool)
    ensures
        r == identity_ok(d@, *rules),
{
    let both: u8 = rules.flag_detach | rules.flag_persist;
    d.extension_id != 0 && d.definition_revision != 0 && d.flags & !rules.flags_known == 0 && d.flags
        & both == both && d.last_running_attempt <= d.attempt
        && d.blocked_detail.as_str().as_bytes().len() <= rules.max_detail && (d.blocked
        || d.blocked_detail.as_str().is_empty())
}

pub open spec fn bad_identity() -> CatalogErrorView {
    CatalogErrorView::Invalid("persistent extension identity is invalid"@)
}

pub open spec fn bad_metadata() -> CatalogErrorView {
    CatalogErrorView::Invalid("persistent extension argument metadata is inconsistent"@)
}

/// A definition as stored, without its arguments.
pub open spec fn definition_record(d: PersistentView) -> Seq<u8> {
    seq![RECORD_VERSION] + le64(d.extension_id) + le64(d.definition_revision) + seq![
        d.flags,
        d.restart,
    ] + le64(d.attempt) + le64(d.last_running_attempt) + le32(d.failure_count) + le64(
        d.next_start_unix_ms,
    ) + seq![
        if d.blocked {
            1u8
        } else {
            0u8
        },
    ] + le16(byte_len(d.blocked_detail) as u16) + encode_utf8(d.blocked_detail) + d.hash + le16(
        byte_len(d.name) as u16,
    ) + encode_utf8(d.name)
}

/// Why `n` bytes cannot be taken at `off` from a record of `len` bytes.
pub open spec fn take_fault(len: nat, off: nat, n: nat) -> Option<CatalogErrorView> {
    if off + n > usize::MAX {
        Some(CatalogErrorView::Storage("extension record overflow"@))
    } else if off + n > len {
        Some(CatalogErrorView::Storage("extension record is truncated"@))
    } else {
        None
    }
}

fn check_take(len: usize, off: usize, n: usize) -> (r: Result<(), CatalogError>)
    ensures
        fault_of(r) == take_fault(len as nat, off as nat, n as nat),
{
    match off.checked_add(n) {
        None => Err(storage("extension record overflow")),
        Some(end) => if end > len {
            Err(storage("extension record is truncated"))
        } else {
            Ok(())
        },
    }
}

/// Reads `left` arguments from `off` on; they must end where the record does.
pub open spec fn parse_list(
    bytes: Seq<u8>,
    off: nat,
    left: nat,
    payload: nat,
    rules: CatalogRules,
) -> Result<Seq<Seq<char>>, CatalogErrorView>
    decreases left,
{
    if left == 0 {
        if off == bytes.len() {
            Ok(Seq::empty())
        } else {
            Err(CatalogErrorView::Storage("extension definition has trailing bytes"@))
        }
    } else if take_fault(bytes.len(), off, 4) is Some {
        Err(take_fault(bytes.len(), off, 4)->0)
    } else {
        let len = u32_at(bytes, off as int) as nat;
        if payload + len > usize::MAX {
            Err(CatalogErrorView::Budget)
        } else if len > rules.max_arg || payload + len > rules.max_argument_bytes {
            Err(CatalogErrorView::Storage("extension arguments exceed protocol limits"@))
        } else if take_fault(bytes.len(), off + 4, len) is Some {
            Err(take_fault(bytes.len(), off + 4, len)->0)
        } else {
            let piece = bytes.subrange((off + 4) as int, (off + 4 + len) as int);
            if !valid_utf8(piece) {
                Err(CatalogErrorView::Storage("extension argument is not UTF-8"@))
            } else {
                match parse_list(bytes, off + 4 + len, (left - 1) as nat, payload + len, rules) {
                    Ok(rest) => Ok(seq![decode_utf8(piece)] + rest),
                    Err(e) => Err(e),
                }
            }
        }
    }
}

/// Reads an argument record.
pub open spec fn parse_arguments(bytes: Seq<u8>, rules: CatalogRules) -> Result<
    Seq<Seq<char>>,
    CatalogErrorView,
> {
    if take_fault(bytes.len(), 0, 2) is Some {
        Err(take_fault(bytes.len(), 0, 2)->0)
    } else if u16_at(bytes, 0) > rules.max_args {
        Err(CatalogErrorView::Storage("extension argument count exceeds protocol limit"@))
    } else {
        parse_list(bytes, 2, u16_at(bytes, 0) as nat, 0, rules)
    }
}

/// `acc` in front of what a parse found.
pub open spec fn prepend(
    acc: Seq<Seq<char>>,
    r: Result<Seq<Seq<char>>, CatalogErrorView>,
) -> Result<Seq<Seq<char>>, CatalogErrorView> {
    match r {
        Ok(rest) => Ok(acc + rest),
        Err(e) => Err(e),
    }
}

/// Reads an argument record; the arguments are kept only where `collect` asks.
pub fn decode_arguments(bytes: &[u8], collect: bool, rules: &CatalogRules) -> (r: Result<
    (usize, Vec<String>),
    CatalogError,
>)
    ensures
        match r {
            Ok((size, args)) => {
                &&& size == bytes@.len()
                &&& parse_arguments(bytes@, *rules) is Ok
                &&& texts(args@) == if collect {
                    parse_arguments(bytes@, *rules)->Ok_0
                } else {
                    Seq::<Seq<char>>::empty()
                }
            },
            Err(e) => parse_arguments(bytes@, *rules) == Err::<Seq<Seq<char>>, _>(e@),
        },
{
    let total: usize = bytes.len();
    if let Err(e) = check_take(total, 0, 2) {
        return Err(e);
    }
    let count: usize = read_u16(bytes, 0) as usize;
    if count > rules.max_args {
        return Err(storage("extension argument count exceeds protocol limit"));
    }
    let mut args: Vec<String> = Vec::new();
    let mut off: usize = 2;
    let mut left: usize = count;
    let mut payload: usize = 0;
    let ghost mut seen: Seq<Seq<char>> = Seq::empty();
    proof {
        let whole = parse_list(bytes@, 2, count as nat, 0, *rules);
        if whole is Ok {
            assert(seen + whole->Ok_0 =~= whole->Ok_0);
        }
        assert(texts(args@) =~= Seq::<Seq<char>>::empty());
    }
    while left > 0
        invariant
            total == bytes@.len(),
            off <= total,
            parse_arguments(bytes@, *rules) == parse_list(bytes@, 2, count as nat, 0, *rules),
            parse_list(bytes@, 2, count as nat, 0, *rules) == prepend(
                seen,
                parse_list(bytes@, off as nat, left as nat, payload as nat, *rules),
            ),
            texts(args@) == if collect {
                seen
            } else {
                Seq::<Seq<char>>::empty()
            },
        decreases left,
    {
        let ghost here = parse_list(bytes@, off as nat, left as nat, payload as nat, *rules);
        if let Err(e) = check_take(total, off, 4) {
            return Err(e);
        }
        let len: usize = read_u32(bytes, off) as usize;
        match payload.checked_add(len) {
            None => {
                return Err(CatalogError::Budget);
            },
            Some(sum) => {
                payload = sum;
            },
        }
        if len > rules.max_arg || payload > rules.max_argument_bytes {
            return Err(storage("extension arguments exceed protocol limits"));
        }
        if let Err(e) = check_take(total, off + 4, len) {
            return Err(e);
        }
        let piece = slice_subrange(bytes, off + 4, off + 4 + len);
        match from_utf8(piece) {
            Err(_) => {
                return Err(storage("extension argument is not UTF-8"));
            },
            Ok(text) => {
                proof {
                    encode_utf8_decode_utf8(text@);
                    let after = parse_list(
                        bytes@,
                        (off + 4 + len) as nat,
                        (left - 1) as nat,
                        payload as nat,
                        *rules,
                    );
                    if after is Ok {
                        assert(seen + (seq![text@] + after->Ok_0) =~= seen.push(text@)
                            + after->Ok_0);
                    }
                    seen = seen.push(text@);
                }
                if collect {
                    let ghost prior = texts(args@);
                    args.push(text.to_owned());
                    proof {
                        assert(texts(args@) =~= prior.push(text@));
                    }
                }
            },
        }
        off = off + 4 + len;
        left = left - 1;
    }
    if off != total {
        return Err(storage("extension definition has trailing bytes"));
    }
    proof {
        assert(seen + Seq::<Seq<char>>::empty() =~= seen);
    }
    Ok((total, args))
}

/// The part of a record that later versions added, and where it ends: retry
/// state from the second version on, blocked state from the third.
pub open spec fn parse_state(bytes: Seq<u8>, version: u8) -> Result<
    (u32, u64, bool, Seq<char>, nat),
    CatalogErrorView,
> {
    let truncated = CatalogErrorView::Storage("extension record is truncated"@);
    let len = bytes.len();
    if version < RECORD_VERSION_V2 {
        Ok((0u32, 0u64, false, Seq::empty(), 35nat))
    } else if len < 47 {
        Err(truncated)
    } else if version < RECORD_VERSION {
        Ok((u32_at(bytes, 35), u64_at(bytes, 39), false, Seq::empty(), 47nat))
    } else if len < 48 {
        Err(truncated)
    } else if bytes[47] > 1 {
        Err(CatalogErrorView::Storage("extension blocked-state marker is invalid"@))
    } else if len < 50 || len < 50 + u16_at(bytes, 48) {
        Err(truncated)
    } else {
        let end = 50 + u16_at(bytes, 48);
        let piece = bytes.subrange(50, end);
        if !valid_utf8(piece) {
            Err(CatalogErrorView::Storage("extension detail is not UTF-8"@))
        } else {
            Ok(
                (
                    u32_at(bytes, 35),
                    u64_at(bytes, 39),
                    bytes[47] == 1,
                    decode_utf8(piece),
                    end as nat,
                ),
            )
        }
    }
}

/// What is wrong with a definition that was read back.
pub open spec fn stored_fault(d: PersistentView, rules: CatalogRules) -> Option<CatalogErrorView> {
    let prefix = "invalid persistent extension definition: "@;
    if !identity_ok(d, rules) {
        Some(CatalogErrorView::Storage(prefix + error_text(bad_identity())))
    } else {
        match fields_fault(d.name, Seq::empty(), d.restart, rules) {
            Some(e) => Some(CatalogErrorView::Storage(prefix + error_text(e))),
            None => None,
        }
    }
}

/// Reads a stored definition: what it says, and where its arguments begin.
pub open spec fn parse_definition(bytes: Seq<u8>, rules: CatalogRules) -> Result<
    (PersistentView, nat),
    CatalogErrorView,
> {
    let truncated = CatalogErrorView::Storage("extension record is truncated"@);
    let len = bytes.len();
    if len < 1 {
        Err(truncated)
    } else if !(RECORD_VERSION_V1 <= bytes[0] <= RECORD_VERSION) {
        Err(CatalogErrorView::Storage("unsupported extension definition record version"@))
    } else if len < 35 {
        Err(truncated)
    } else {
        match parse_state(bytes, bytes[0]) {
            Err(e) => Err(e),
            Ok((failure_count, next_start_unix_ms, blocked, blocked_detail, state_end)) => {
                let at = state_end as int;
                if len < at + 34 || len < at + 34 + u16_at(bytes, at + 32) {
                    Err(truncated)
                } else {
                    let end = at + 34 + u16_at(bytes, at + 32);
                    let name = bytes.subrange(at + 34, end);
                    if !valid_utf8(name) {
                        Err(CatalogErrorView::Storage("extension name is not UTF-8"@))
                    } else {
                        match parse_arguments(bytes.subrange(end, len as int), rules) {
                            Err(e) => Err(e),
                            Ok(_) => {
                                let d = PersistentView {
                                    extension_id: u64_at(bytes, 1),
                                    definition_revision: u64_at(bytes, 9),
                                    flags: bytes[17],
                                    restart: bytes[18],
                                    attempt: u64_at(bytes, 19),
                                    last_running_attempt: u64_at(bytes, 27),
                                    failure_count,
                                    next_start_unix_ms,
                                    blocked,
                                    blocked_detail,
                                    hash: bytes.subrange(at, at + 32),
                                    name: decode_utf8(name),
                                    argument_bytes: (len - end) as nat,
                                };
                                match stored_fault(d, rules) {
                                    Some(e) => Err(e),
                                    None => Ok((d, end as nat)),
                                }
                            },
                        }
                    }
                }
            },
        }
    }
}

/// A definition that was read back has an id.
pub proof fn lemma_parsed_identity(bytes: Seq<u8>, rules: CatalogRules)
    requires
        parse_definition(bytes, rules) is Ok,
    ensures
        parse_definition(bytes, rules)->Ok_0.0.extension_id != 0,
        identity_ok(parse_definition(bytes, rules)->Ok_0.0, rules),
{
}

fn hash_at(bytes: &[u8], at: usize) -> (h: [u8; 32])
    requires
        at + 32 <= bytes@.len(),
    ensures
        h@ == bytes@.subrange(at as int, at + 32),
{
    let total: usize = bytes.len();
    let mut h: [u8; 32] = [0; 32];
    let mut i: usize = 0;
    while i < 32
        invariant
            i <= 32,
            total == bytes@.len(),
            at + 32 <= total,
            forall|k: int| 0 <= k < i ==> h@[k] == bytes@[at + k],
        decreases 32 - i,
    {
        h[i] = bytes[at + i];
        i = i + 1;
    }
    proof {
        assert(h@ =~= bytes@.subrange(at as int, at + 32));
    }
    h
}

struct StoredState {
    failure_count: u32,
    next_start_unix_ms: u64,
    blocked: bool,
    blocked_detail: String,
    end: usize,
}

fn decode_state(bytes: &[u8], version: u8) -> (r: Result<StoredState, CatalogError>)
    requires
        bytes@.len() >= 35,
    ensures
        match r {
            Ok(s) => parse_state(bytes@, version) == Ok::<_, CatalogErrorView>(
                (
                    s.failure_count,
                    s.next_start_unix_ms,
                    s.blocked,
                    s.blocked_detail@,
                    s.end as nat,
                ),
            ) && 35 <= s.end <= bytes@.len() && s.end <= 50 + 0xffff,
            Err(e) => parse_state(bytes@, version) == Err::<(u32, u64, bool, Seq<char>, nat), _>(
                e@,
            ),
        },
{
    let len: usize = bytes.len();
    if version < RECORD_VERSION_V2 {
        return Ok(
            StoredState {
                failure_count: 0,
                next_start_unix_ms: 0,
                blocked: false,
                blocked_detail: String::new(),
                end: 35,
            },
        );
    }
    if len < 47 {
        return Err(storage("extension record is truncated"));
    }
    let failure_count: u32 = read_u32(bytes, 35);
    let next_start_unix_ms: u64 = read_u64(bytes, 39);
    if version < RECORD_VERSION {
        return Ok(
            StoredState {
                failure_count,
                next_start_unix_ms,
                blocked: false,
                blocked_detail: String::new(),
                end: 47,
            },
        );
    }
    if len < 48 {
        return Err(storage("extension record is truncated"));
    }
    if bytes[47] > 1 {
        return Err(storage("extension blocked-state marker is invalid"));
    }
    if len < 50 {
        return Err(storage("extension record is truncated"));
    }
    let detail_len: usize = read_u16(bytes, 48) as usize;
    if len - 50 < detail_len {
        return Err(storage("extension record is truncated"));
    }
    let end: usize = 50 + detail_len;
    match from_utf8(slice_subrange(bytes, 50, end)) {
        Err(_) => Err(storage("extension detail is not UTF-8")),
        Ok(text) => {
            proof {
                encode_utf8_decode_utf8(text@);
            }
            Ok(
                StoredState {
                    failure_count,
                    next_start_unix_ms,
                    blocked: bytes[47] == 1,
                    blocked_detail: text.to_owned(),
                    end,
                },
            )
        },
    }
}

/// Reads a stored definition and where its arguments begin.
pub fn decode_definition(bytes: &[u8], rules: &CatalogRules) -> (r: Result<
    (PersistentDefinition, usize),
    CatalogError,
>)
    ensures
        match r {
            Ok((d, off)) => parse_definition(bytes@, *rules) == Ok::<_, CatalogErrorView>(
                (d@, off as nat),
            ) && off <= bytes@.len(),
            Err(e) => parse_definition(bytes@, *rules) == Err::<(PersistentView, nat), _>(e@),
        },
{
    let len: usize = bytes.len();
    if len < 1 {
        return Err(storage("extension record is truncated"));
    }
    let version: u8 = bytes[0];
    if !(RECORD_VERSION_V1 <= version && version <= RECORD_VERSION) {
        return Err(storage("unsupported extension definition record version"));
    }
    if len < 35 {
        return Err(storage("extension record is truncated"));
    }
    let state = match decode_state(bytes, version) {
        Err(e) => {
            return Err(e);
        },
        Ok(s) => s,
    };
    let at: usize = state.end;
    if len - at < 34 {
        return Err(storage("extension record is truncated"));
    }
    let name_len: usize = read_u16(bytes, at + 32) as usize;
    if len - at - 34 < name_len {
        return Err(storage("extension record is truncated"));
    }
    let end: usize = at + 34 + name_len;
    let name = match from_utf8(slice_subrange(bytes, at + 34, end)) {
        Err(_) => {
            return Err(storage("extension name is not UTF-8"));
        },
        Ok(text) => {
            proof {
                encode_utf8_decode_utf8(text@);
            }
            text.to_owned()
        },
    };
    let argument_bytes: usize = match decode_arguments(
        slice_subrange(bytes, end, len),
        false,
        rules,
    ) {
        Err(e) => {
            return Err(e);
        },
        Ok((n, _)) => n,
    };
    let d = PersistentDefinition {
        extension_id: read_u64(bytes, 1),
        definition_revision: read_u64(bytes, 9),
        flags: bytes[17],
        restart: bytes[18],
        attempt: read_u64(bytes, 19),
        last_running_attempt: read_u64(bytes, 27),
        failure_count: state.failure_count,
        next_start_unix_ms: state.next_start_unix_ms,
        blocked: state.blocked,
        blocked_detail: state.blocked_detail,
        hash: hash_at(bytes, at),
        name,
        argument_bytes,
    };
    if !identity_valid(&d, rules) {
        let e = CatalogError::Invalid("persistent extension identity is invalid");
        let text = e.text();
        return Err(
            CatalogError::Storage(
                concat("invalid persistent extension definition: ", text.as_str()),
            ),
        );
    }
    let none: Vec<String> = Vec::new();
    proof {
        assert(texts(none@) =~= Seq::<Seq<char>>::empty());
    }
    if let Err(e) = validate_definition_fields(d.name.as_str(), &none, d.restart, rules) {
        let text = e.text();
        return Err(
            CatalogError::Storage(
                concat("invalid persistent extension definition: ", text.as_str()),
            ),
        );
    }
    Ok((d, end))
}

/// What encoding a definition over stored arguments gives.
pub open spec fn encoded_raw(d: PersistentView, raw: Seq<u8>, rules: CatalogRules) -> Result<
    Seq<u8>,
    CatalogErrorView,
> {
    if !identity_ok(d, rules) {
        Err(bad_identity())
    } else {
        match fields_fault(d.name, Seq::empty(), d.restart, rules) {
            Some(e) => Err(e),
            None => match parse_arguments(raw, rules) {
                Err(e) => Err(e),
                Ok(_) => if d.argument_bytes != raw.len() {
                    Err(bad_metadata())
                } else {
                    Ok(definition_record(d) + raw)
                },
            },
        }
    }
}

pub fn encode_definition_raw(d: &PersistentDefinition, raw: &[u8], rules: &CatalogRules) -> (r: Result<
    Vec<u8>,
    CatalogError,
>)
    requires
        rules.wf(),
    ensures
        outcome(r) == encoded_raw(d@, raw@, *rules),
{
    if !identity_valid(d, rules) {
        return Err(CatalogError::Invalid("persistent extension identity is invalid"));
    }
    let none: Vec<String> = Vec::new();
    proof {
        assert(texts(none@) =~= Seq::<Seq<char>>::empty());
    }
    if let Err(e) = validate_definition_fields(d.name.as_str(), &none, d.restart, rules) {
        return Err(e);
    }
    match decode_arguments(raw, false, rules) {
        Err(e) => {
            return Err(e);
        },
        Ok((size, _)) => {
            if d.argument_bytes != size {
                return Err(
                    CatalogError::Invalid("persistent extension argument metadata is inconsistent"),
                );
            }
        },
    }
    let detail = d.blocked_detail.as_str().as_bytes();
    let name = d.name.as_str().as_bytes();
    let mut out: Vec<u8> = Vec::new();
    out.push(RECORD_VERSION);
    push_u64(&mut out, d.extension_id);
    push_u64(&mut out, d.definition_revision);
    out.push(d.flags);
    out.push(d.restart);
    push_u64(&mut out, d.attempt);
    push_u64(&mut out, d.last_running_attempt);
    push_u32(&mut out, d.failure_count);
    push_u64(&mut out, d.next_start_unix_ms);
    out.push(
        if d.blocked {
            1
        } else {
            0
        },
    );
    push_u16(&mut out, detail.len() as u16);
    push_bytes(&mut out, detail);
    push_bytes(&mut out, vstd::array::array_as_slice(&d.hash));
    push_u16(&mut out, name.len() as u16);
    push_bytes(&mut out, name);
    proof {
        assert(out@ =~= definition_record(d@));
    }
    push_bytes(&mut out, raw);
    Ok(out)
}

/// What encoding a definition with its arguments gives.
pub open spec fn encoded(d: PersistentView, args: Seq<Seq<char>>, rules: CatalogRules) -> Result<
    Seq<u8>,
    CatalogErrorView,
> {
    match fields_fault(d.name, args, d.restart, rules) {
        Some(e) => Err(e),
        None => if argument_size(args) > usize::MAX {
            Err(CatalogErrorView::Budget)
        } else if d.argument_bytes != argument_size(args) {
            Err(bad_metadata())
        } else if !identity_ok(d, rules) {
            Err(bad_identity())
        } else {
            Ok(definition_record(d) + argument_record(args))
        },
    }
}

pub fn encode_definition(d: &PersistentDefinition, args: &Vec<String>, rules: &CatalogRules) -> (r:
    Result<Vec<u8>, CatalogError>)
    requires
        rules.wf(),
    ensures
        outcome(r) == encoded(d@, texts(args@), *rules),
{
    let ghost all = texts(args@);
    if let Err(e) = validate_definition_fields(d.name.as_str(), args, d.restart, rules) {
        return Err(e);
    }
    let size: usize = match encoded_argument_bytes(args) {
        Err(e) => {
            return Err(e);
        },
        Ok(n) => n,
    };
    if d.argument_bytes != size {
        return Err(CatalogError::Invalid("persistent extension argument metadata is inconsistent"));
    }
    let mut raw: Vec<u8> = Vec::new();
    push_u16(&mut raw, args.len() as u16);
    let mut i: usize = 0;
    proof {
        assert(list_bytes(all.take(0)) =~= Seq::<u8>::empty());
        assert(raw@ =~= le16(all.len() as u16) + list_bytes(all.take(0)));
    }
    while i < args.len()
        invariant
            i <= args@.len(),
            all == texts(args@),
            raw@ == le16(all.len() as u16) + list_bytes(all.take(i as int)),
        decreases args.len() - i,
    {
        let piece = args[i].as_str().as_bytes();
        let ghost before = raw@;
        push_u32(&mut raw, piece.len() as u32);
        push_bytes(&mut raw, piece);
        proof {
            let longer = all.take(i + 1);
            assert(longer.drop_last() =~= all.take(i as int));
            assert(longer.last() == args@[i as int]@);
            assert(raw@ =~= le16(all.len() as u16) + list_bytes(longer));
        }
        i = i + 1;
    }
    proof {
        assert(all.take(all.len() as int) =~= all);
        law_arguments_round_trip(all, *rules);
        lemma_argument_size(all);
        lemma_no_arguments(d.name@, all, d.restart, *rules);
    }
    encode_definition_raw(d, raw.as_slice(), rules)
}

proof fn lemma_no_arguments(name: Seq<char>, args: Seq<Seq<char>>, restart: u8, rules: CatalogRules)
    requires
        fields_fault(name, args, restart, rules) is None,
    ensures
        fields_fault(name, Seq::empty(), restart, rules) is None,
{
}

proof fn lemma_list_prefix(args: Seq<Seq<char>>, k: int)
    requires
        0 <= k <= args.len(),
    ensures
        list_bytes(args.take(k)).len() <= list_bytes(args).len(),
        list_bytes(args).subrange(0, list_bytes(args.take(k)).len() as int) == list_bytes(
            args.take(k),
        ),
    decreases args.len(),
{
    if k < args.len() {
        lemma_list_prefix(args.drop_last(), k);
        assert(args.drop_last().take(k) =~= args.take(k));
        let short = list_bytes(args.take(k));
        assert(list_bytes(args).subrange(0, short.len() as int) =~= list_bytes(
            args.drop_last(),
        ).subrange(0, short.len() as int));
    } else {
        assert(args.take(k) =~= args);
        assert(list_bytes(args).subrange(0, list_bytes(args).len() as int) =~= list_bytes(args));
    }
}

/// Reading the argument record from the `k`-th argument on.
proof fn lemma_parse_from(
    args: Seq<Seq<char>>,
    k: int,
    payload: nat,
    rules: CatalogRules,
)
    requires
        rules.wf(),
        0 <= k <= args.len(),
        args.len() <= 0xffff,
        argument_size(args) <= usize::MAX,
        arguments_fault(args.subrange(k, args.len() as int), payload, rules) is None,
    ensures
        parse_list(
            argument_record(args),
            argument_size(args.take(k)),
            (args.len() - k) as nat,
            payload,
            rules,
        ) == Ok::<_, CatalogErrorView>(args.subrange(k, args.len() as int)),
    decreases args.len() - k,
{
    let bytes = argument_record(args);
    let off = argument_size(args.take(k));
    lemma_argument_size(args);
    lemma_argument_size(args.take(k));
    lemma_le_bytes_len(args.len() as u16 as nat, 2);
    lemma_le_bytes_len(args.take(k).len() as u16 as nat, 2);
    if k == args.len() {
        assert(args.take(k) =~= args);
        assert(args.subrange(k, args.len() as int) =~= Seq::<Seq<char>>::empty());
    } else {
        let rest = args.subrange(k, args.len() as int);
        let arg = args[k];
        let len = byte_len(arg);
        let longer = args.take(k + 1);
        assert(rest[0] == arg);
        assert(rest.subrange(1, rest.len() as int) =~= args.subrange(k + 1, args.len() as int));
        assert(longer.drop_last() =~= args.take(k));
        assert(longer.last() == arg);
        lemma_argument_size_grows(args, k + 1);
        lemma_list_prefix(args, k + 1);
        lemma_le_bytes_len(len as u32 as nat, 4);
        let front = list_bytes(args.take(k));
        let head = le32(len as u32);
        let body = encode_utf8(arg);
        let upto = list_bytes(longer);
        assert(upto == front + head + body);
        assert(off == 2 + front.len());
        assert(list_bytes(args).subrange(0, upto.len() as int) == upto);
        let whole = list_bytes(args);
        assert forall|j: int| 0 <= j < 4 implies bytes[off + j] == head[j] by {
            let i = front.len() + j;
            assert(whole.subrange(0, upto.len() as int)[i] == upto[i]);
            assert(bytes[2 + i] == whole[i]);
        }
        assert forall|j: int| 0 <= j < len implies bytes[off + 4 + j] == body[j] by {
            let i = front.len() + 4 + j;
            assert(whole.subrange(0, upto.len() as int)[i] == upto[i]);
            assert(bytes[2 + i] == whole[i]);
        }
        assert(bytes.subrange(off as int, (off + 4) as int) =~= head);
        assert(bytes.subrange((off + 4) as int, (off + 4 + len) as int) =~= body);
        lemma_byte_range_values();
        law_le_round_trip(len, 4);
        assert(u32_at(bytes, off as int) == len);
        encode_utf8_valid_utf8(arg);
        encode_utf8_decode_utf8(arg);
        lemma_parse_from(args, k + 1, payload + len, rules);
        assert(argument_size(longer) == off + 4 + len);
        assert(seq![arg] + args.subrange(k + 1, args.len() as int) =~= rest);
    }
}

/// An argument list that the rules allow is read back as it was written.
pub proof fn law_arguments_round_trip(args: Seq<Seq<char>>, rules: CatalogRules)
    requires
        rules.wf(),
        args.len() <= rules.max_args,
        arguments_fault(args, 0, rules) is None,
        argument_size(args) <= usize::MAX,
    ensures
        parse_arguments(argument_record(args), rules) == Ok::<_, CatalogErrorView>(args),
{
    let bytes = argument_record(args);
    lemma_argument_size(args);
    lemma_argument_size_grows(args, 0);
    assert(args.take(0).len() == 0);
    assert(argument_size(args.take(0)) == 2);
    lemma_le_bytes_len(args.len() as u16 as nat, 2);
    assert(bytes.subrange(0, 2) =~= le16(args.len() as u16));
    lemma_byte_range_values();
    law_le_round_trip(args.len(), 2);
    assert(u16_at(bytes, 0) == args.len());
    assert(args.subrange(0, args.len() as int) =~= args);
    lemma_parse_from(args, 0, 0, rules);
}

/// The eight bytes at `at` are an encoded number.
proof fn lemma_u64_there(bytes: Seq<u8>, at: int, v: u64)
    requires
        0 <= at,
        at + 8 <= bytes.len(),
        bytes.subrange(at, at + 8) == le64(v),
    ensures
        u64_at(bytes, at) == v,
{
    lemma_byte_range_values();
    law_le_round_trip(v as nat, 8);
}

proof fn lemma_u32_there(bytes: Seq<u8>, at: int, v: u32)
    requires
        0 <= at,
        at + 4 <= bytes.len(),
        bytes.subrange(at, at + 4) == le32(v),
    ensures
        u32_at(bytes, at) == v,
{
    lemma_byte_range_values();
    law_le_round_trip(v as nat, 4);
}

proof fn lemma_u16_there(bytes: Seq<u8>, at: int, v: u16)
    requires
        0 <= at,
        at + 2 <= bytes.len(),
        bytes.subrange(at, at + 2) == le16(v),
    ensures
        u16_at(bytes, at) == v,
{
    lemma_byte_range_values();
    law_le_round_trip(v as nat, 2);
}

/// The fixed front of a record.
spec fn record_front(d: PersistentView) -> Seq<u8> {
    seq![RECORD_VERSION] + le64(d.extension_id) + le64(d.definition_revision) + seq![
        d.flags,
        d.restart,
    ] + le64(d.attempt) + le64(d.last_running_attempt) + le32(d.failure_count) + le64(
        d.next_start_unix_ms,
    ) + seq![
        if d.blocked {
            1u8
        } else {
            0u8
        },
    ] + le16(byte_len(d.blocked_detail) as u16)
}

proof fn lemma_record_front(d: PersistentView, bytes: Seq<u8>)
    requires
        bytes.len() >= 50,
        bytes.subrange(0, 50) == record_front(d),
    ensures
        record_front(d).len() == 50,
        bytes[0] == RECORD_VERSION,
        u64_at(bytes, 1) == d.extension_id,
        u64_at(bytes, 9) == d.definition_revision,
        bytes[17] == d.flags,
        bytes[18] == d.restart,
        u64_at(bytes, 19) == d.attempt,
        u64_at(bytes, 27) == d.last_running_attempt,
        u32_at(bytes, 35) == d.failure_count,
        u64_at(bytes, 39) == d.next_start_unix_ms,
        bytes[47] == if d.blocked {
            1u8
        } else {
            0u8
        },
        u16_at(bytes, 48) == byte_len(d.blocked_detail) as u16,
{
    let f = record_front(d);
    lemma_record_front_len(d);
    let g = bytes.subrange(0, 50);
    assert(g == f);
    assert(bytes[0] == g[0] && bytes[17] == g[17] && bytes[18] == g[18] && bytes[47] == g[47]);
    assert(bytes.subrange(1, 9) =~= f.subrange(1, 9));
    assert(f.subrange(1, 9) =~= le64(d.extension_id));
    lemma_u64_there(bytes, 1, d.extension_id);
    assert(bytes.subrange(9, 17) =~= f.subrange(9, 17));
    assert(f.subrange(9, 17) =~= le64(d.definition_revision));
    lemma_u64_there(bytes, 9, d.definition_revision);
    assert(bytes.subrange(19, 27) =~= f.subrange(19, 27));
    assert(f.subrange(19, 27) =~= le64(d.attempt));
    lemma_u64_there(bytes, 19, d.attempt);
    assert(bytes.subrange(27, 35) =~= f.subrange(27, 35));
    assert(f.subrange(27, 35) =~= le64(d.last_running_attempt));
    lemma_u64_there(bytes, 27, d.last_running_attempt);
    assert(bytes.subrange(35, 39) =~= f.subrange(35, 39));
    assert(f.subrange(35, 39) =~= le32(d.failure_count));
    lemma_u32_there(bytes, 35, d.failure_count);
    assert(bytes.subrange(39, 47) =~= f.subrange(39, 47));
    assert(f.subrange(39, 47) =~= le64(d.next_start_unix_ms));
    lemma_u64_there(bytes, 39, d.next_start_unix_ms);
    assert(bytes.subrange(48, 50) =~= f.subrange(48, 50));
    assert(f.subrange(48, 50) =~= le16(byte_len(d.blocked_detail) as u16));
    lemma_u16_there(bytes, 48, byte_len(d.blocked_detail) as u16);
}

proof fn lemma_record_front_len(d: PersistentView)
    ensures
        record_front(d).len() == 50,
        le64(d.extension_id).len() == 8,
        le64(d.definition_revision).len() == 8,
        le64(d.attempt).len() == 8,
        le64(d.last_running_attempt).len() == 8,
        le32(d.failure_count).len() == 4,
        le64(d.next_start_unix_ms).len() == 8,
        le16(byte_len(d.blocked_detail) as u16).len() == 2,
        le16(byte_len(d.name) as u16).len() == 2,
{
    lemma_le_bytes_len(d.extension_id as nat, 8);
    lemma_le_bytes_len(d.definition_revision as nat, 8);
    lemma_le_bytes_len(d.attempt as nat, 8);
    lemma_le_bytes_len(d.last_running_attempt as nat, 8);
    lemma_le_bytes_len(d.failure_count as nat, 4);
    lemma_le_bytes_len(d.next_start_unix_ms as nat, 8);
    lemma_le_bytes_len(byte_len(d.blocked_detail) as u16 as nat, 2);
    lemma_le_bytes_len(byte_len(d.name) as u16 as nat, 2);
}

/// A definition that the rules allow, stored over an argument record that they
/// allow, is read back as it was written, and the arguments begin where the
/// definition ends.
pub proof fn law_definition_round_trip(d: PersistentView, raw: Seq<u8>, rules: CatalogRules)
    requires
        rules.wf(),
        d.hash.len() == 32,
        encoded_raw(d, raw, rules) is Ok,
    ensures
        parse_definition(definition_record(d) + raw, rules) == Ok::<_, CatalogErrorView>(
            (d, definition_record(d).len()),
        ),
{
    let front = record_front(d);
    let detail = encode_utf8(d.blocked_detail);
    let name = encode_utf8(d.name);
    let name_len = le16(byte_len(d.name) as u16);
    let bytes = definition_record(d) + raw;
    lemma_record_front_len(d);
    assert(bytes =~= front + detail + d.hash + name_len + name + raw);
    assert(bytes.subrange(0, 50) =~= front);
    lemma_record_front(d, bytes);
    assert(bytes.subrange(50, (50 + detail.len()) as int) =~= detail);
    encode_utf8_valid_utf8(d.blocked_detail);
    encode_utf8_decode_utf8(d.blocked_detail);
    let at = (50 + detail.len()) as int;
    assert(bytes.subrange(at, at + 32) =~= d.hash);
    assert(bytes.subrange(at + 32, at + 34) =~= name_len);
    lemma_u16_there(bytes, at + 32, byte_len(d.name) as u16);
    let end = at + 34 + name.len();
    assert(bytes.subrange(at + 34, end) =~= name);
    encode_utf8_valid_utf8(d.name);
    encode_utf8_decode_utf8(d.name);
    assert(bytes.subrange(end, bytes.len() as int) =~= raw);
    assert(definition_record(d).len() == end);
}

/// Numbers within a record are what they are in a longer one that begins with it.
proof fn lemma_begins(a: Seq<u8>, b: Seq<u8>)
    requires
        a.len() <= b.len(),
        b.subrange(0, a.len() as int) == a,
    ensures
        forall|i: int| 0 <= i < a.len() ==> #[trigger] b[i] == a[i],
        forall|i: int, j: int|
            0 <= i <= j <= a.len() ==> #[trigger] b.subrange(i, j) == a.subrange(i, j),
        forall|i: int| 0 <= i && i + 2 <= a.len() ==> #[trigger] u16_at(b, i) == u16_at(a, i),
        forall|i: int| 0 <= i && i + 4 <= a.len() ==> #[trigger] u32_at(b, i) == u32_at(a, i),
        forall|i: int| 0 <= i && i + 8 <= a.len() ==> #[trigger] u64_at(b, i) == u64_at(a, i),
{
    assert forall|i: int| 0 <= i < a.len() implies #[trigger] b[i] == a[i] by {
        assert(b.subrange(0, a.len() as int)[i] == a[i]);
    }
    assert forall|i: int, j: int| 0 <= i <= j <= a.len() implies #[trigger] b.subrange(i, j)
        == a.subrange(i, j) by {
        assert(b.subrange(i, j) =~= a.subrange(i, j));
    }
    assert forall|i: int| 0 <= i && i + 2 <= a.len() implies #[trigger] u16_at(b, i) == u16_at(
        a,
        i,
    ) by {
        assert(b.subrange(i, i + 2) == a.subrange(i, i + 2));
    }
    assert forall|i: int| 0 <= i && i + 4 <= a.len() implies #[trigger] u32_at(b, i) == u32_at(
        a,
        i,
    ) by {
        assert(b.subrange(i, i + 4) == a.subrange(i, i + 4));
    }
    assert forall|i: int| 0 <= i && i + 8 <= a.len() implies #[trigger] u64_at(b, i) == u64_at(
        a,
        i,
    ) by {
        assert(b.subrange(i, i + 8) == a.subrange(i, i + 8));
    }
}

/// Arguments that end with a record do not end with a longer one.
proof fn lemma_list_ends(
    a: Seq<u8>,
    b: Seq<u8>,
    off: nat,
    left: nat,
    payload: nat,
    rules: CatalogRules,
)
    requires
        a.len() < b.len(),
        b.subrange(0, a.len() as int) == a,
        parse_list(a, off, left, payload, rules) is Ok,
    ensures
        parse_list(b, off, left, payload, rules) is Err,
    decreases left,
{
    if left > 0 {
        lemma_begins(a, b);
        let len = u32_at(a, off as int) as nat;
        assert(u32_at(b, off as int) == len);
        assert(b.subrange((off + 4) as int, (off + 4 + len) as int) == a.subrange(
            (off + 4) as int,
            (off + 4 + len) as int,
        ));
        lemma_list_ends(a, b, off + 4 + len, (left - 1) as nat, payload + len, rules);
    }
}

/// No stored definition is the beginning of another: what is read whole is
/// refused with a byte or more behind it.
pub proof fn law_trailing_bytes_are_refused(a: Seq<u8>, b: Seq<u8>, rules: CatalogRules)
    requires
        a.len() < b.len(),
        b.subrange(0, a.len() as int) == a,
        parse_definition(a, rules) is Ok,
    ensures
        parse_definition(b, rules) is Err,
{
    lemma_begins(a, b);
    assert(parse_state(b, b[0]) == parse_state(a, a[0])) by {
        if a[0] >= RECORD_VERSION {
            let end = 50 + u16_at(a, 48);
            assert(b.subrange(50, end) == a.subrange(50, end));
        }
    }
    let at = (parse_state(a, a[0])->Ok_0).4 as int;
    let end = at + 34 + u16_at(a, at + 32);
    assert(u16_at(b, at + 32) == u16_at(a, at + 32));
    assert(b.subrange(at + 34, end) == a.subrange(at + 34, end));
    let x = a.subrange(end, a.len() as int);
    let y = b.subrange(end, b.len() as int);
    assert(y.subrange(0, x.len() as int) =~= x);
    assert(parse_arguments(y, rules) is Err) by {
        lemma_begins(x, y);
        assert(u16_at(y, 0) == u16_at(x, 0));
        lemma_list_ends(x, y, 2, u16_at(x, 0) as nat, 0, rules);
    }
}

/// A definition that is stored is refused with any bytes behind it, and so is
/// every beginning of what is stored.
pub proof fn law_stored_record_is_read_whole_or_not(
    d: PersistentView,
    raw: Seq<u8>,
    other: Seq<u8>,
    rules: CatalogRules,
)
    requires
        rules.wf(),
        d.hash.len() == 32,
        encoded_raw(d, raw, rules) is Ok,
        other.len() > 0,
    ensures
        parse_definition(definition_record(d) + raw + other, rules) is Err,
        forall|n: int|
            0 <= n < (definition_record(d) + raw).len() ==> parse_definition(
                #[trigger] (definition_record(d) + raw).take(n),
                rules,
            ) is Err,
{
    let stored = definition_record(d) + raw;
    law_definition_round_trip(d, raw, rules);
    assert((stored + other).subrange(0, stored.len() as int) =~= stored);
    law_trailing_bytes_are_refused(stored, stored + other, rules);
    assert forall|n: int| 0 <= n < stored.len() implies parse_definition(
        #[trigger] stored.take(n),
        rules,
    ) is Err by {
        let part = stored.take(n);
        assert(stored.subrange(0, part.len() as int) =~= part);
        if parse_definition(part, rules) is Ok {
            law_trailing_bytes_are_refused(part, stored, rules);
        }
    }
}

} // verus!
