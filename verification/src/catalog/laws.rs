//! What holds of the catalog of persistent extensions and of its records.

use vstd::prelude::*;
use vstd::utf8::encode_utf8;

use crate::bytes::{
    law_le_round_trip, le16, le32, le64, lemma_byte_range_values, lemma_le_bytes_len, u16_at, u32_at,
    u64_at,
};
use crate::catalog::{
    argument_record, argument_size, arguments_fault, byte_len, control_char, definition_record,
    encoded, encoded_raw, fields_fault, has_control, identity_ok, law_arguments_round_trip,
    law_definition_round_trip, lemma_argument_size, list_bytes, parse_arguments, parse_definition,
    parse_state,
};
use crate::catalog::{BlockedState, CatalogErrorView, CatalogRules, PersistentView};
use crate::extension_catalog::{
    arguments_of, catalog_place, creation_of, flag_set, lifecycle_fault, lifecycle_set,
    metadata_change, new_definition, opened, update_of, updated_definition,
};
use crate::extension_catalog::{
    CatalogBase, CatalogSettings, ChangeView, LifecycleChange,
};
use crate::kv::message::Platform;

verus! {

/// The bytes of all arguments together.
pub open spec fn argument_total(args: Seq<Seq<char>>) -> nat
    decreases args.len(),
{
    if args.len() == 0 {
        0
    } else {
        encode_utf8(args[0]).len() + argument_total(args.skip(1))
    }
}

/// Arguments are accepted exactly where none of them is too long and all of them together
/// are not.
pub proof fn law_which_arguments_are_accepted(
    args: Seq<Seq<char>>,
    before: nat,
    rules: CatalogRules,
)
    requires
        before <= rules.max_argument_bytes,
    ensures
        arguments_fault(args, before, rules) is None <==> {
            &&& forall|i: int|
                0 <= i < args.len() ==> encode_utf8(#[trigger] args[i]).len() <= rules.max_arg
            &&& before + argument_total(args) <= rules.max_argument_bytes
        },
    decreases args.len(),
{
    if args.len() > 0 {
        let len = encode_utf8(args[0]).len();
        let tail = args.skip(1);
        assert(args.subrange(1, args.len() as int) =~= tail);
        if len <= rules.max_arg && before + len <= rules.max_argument_bytes {
            law_which_arguments_are_accepted(tail, before + len, rules);
            if arguments_fault(args, before, rules) is None {
                assert forall|i: int| 0 <= i < args.len() implies encode_utf8(
                    #[trigger] args[i],
                ).len() <= rules.max_arg by {
                    if i > 0 {
                        assert(args[i] == tail[i - 1]);
                    }
                }
            } else {
                if forall|i: int|
                    0 <= i < args.len() ==> encode_utf8(#[trigger] args[i]).len() <= rules.max_arg {
                    assert forall|i: int| 0 <= i < tail.len() implies encode_utf8(
                        #[trigger] tail[i],
                    ).len() <= rules.max_arg by {
                        assert(tail[i] == args[i + 1]);
                    }
                }
            }
        }
    }
}

/// What an extension may be kept as: under a name that is not empty, not too long and
/// without control characters, with a policy that is known, and with arguments that are
/// not too many, not too long and not too long together.
pub proof fn law_which_fields_are_accepted(
    name: Seq<char>,
    args: Seq<Seq<char>>,
    restart: u8,
    rules: CatalogRules,
)
    ensures
        ({
            let sound = name.len() > 0 && encode_utf8(name).len() <= rules.max_name && (forall|
                i: int,
            |
                0 <= i < name.len() ==> !control_char(#[trigger] name[i])) && restart
                <= rules.restart_always && args.len() <= rules.max_args;
            &&& !sound ==> fields_fault(name, args, restart, rules) is Some && fields_fault(
                name,
                args,
                restart,
                rules,
            )->0 is Invalid
            &&& fields_fault(name, args, restart, rules) is None <==> sound && (forall|i: int|
                0 <= i < args.len() ==> encode_utf8(#[trigger] args[i]).len() <= rules.max_arg)
                && argument_total(args) <= rules.max_argument_bytes
        }),
{
    law_which_arguments_are_accepted(args, 0, rules);
    if !has_control(name) {
        assert forall|i: int| 0 <= i < name.len() implies !control_char(#[trigger] name[i]) by {}
    }
}

/// Of the ASCII characters those below the space, and the one for deletion, are control
/// characters.
pub proof fn law_control_characters(c: char)
    requires
        (c as u32) < 0x80,
    ensures
        control_char(c) <==> (c as u32) < 0x20 || c as u32 == 0x7f,
{
}

proof fn lemma_there(bytes: Seq<u8>, at: int, n16: u16, n32: u32, n64: u64)
    ensures
        0 <= at && at + 2 <= bytes.len() && bytes.subrange(at, at + 2) == le16(n16) ==> u16_at(
            bytes,
            at,
        ) == n16,
        0 <= at && at + 4 <= bytes.len() && bytes.subrange(at, at + 4) == le32(n32) ==> u32_at(
            bytes,
            at,
        ) == n32,
        0 <= at && at + 8 <= bytes.len() && bytes.subrange(at, at + 8) == le64(n64) ==> u64_at(
            bytes,
            at,
        ) == n64,
        le16(n16).len() == 2,
        le32(n32).len() == 4,
        le64(n64).len() == 8,
{
    lemma_byte_range_values();
    lemma_le_bytes_len(n16 as nat, 2);
    lemma_le_bytes_len(n32 as nat, 4);
    lemma_le_bytes_len(n64 as nat, 8);
    law_le_round_trip(n16 as nat, 2);
    law_le_round_trip(n32 as nat, 4);
    law_le_round_trip(n64 as nat, 8);
}

/// Where the fields of a stored definition are.
pub proof fn law_where_fields_are(d: PersistentView)
    requires
        d.hash.len() == 32,
        encode_utf8(d.blocked_detail).len() <= 0xffff,
        encode_utf8(d.name).len() <= 0xffff,
    ensures
        ({
            let r = definition_record(d);
            let n = encode_utf8(d.blocked_detail).len() as int;
            &&& r[0] == 3
            &&& u64_at(r, 1) == d.extension_id
            &&& u64_at(r, 9) == d.definition_revision
            &&& r[17] == d.flags
            &&& r[18] == d.restart
            &&& u64_at(r, 19) == d.attempt
            &&& u64_at(r, 27) == d.last_running_attempt
            &&& u32_at(r, 35) == d.failure_count
            &&& u64_at(r, 39) == d.next_start_unix_ms
            &&& r[47] == (if d.blocked {
                1u8
            } else {
                0u8
            })
            &&& u16_at(r, 48) == n
            &&& r.subrange(50, 50 + n) == encode_utf8(d.blocked_detail)
            &&& r.subrange(50 + n, 82 + n) == d.hash
            &&& u16_at(r, 82 + n) == encode_utf8(d.name).len()
            &&& r.skip(84 + n) == encode_utf8(d.name)
        }),
{
    let r = definition_record(d);
    let detail = encode_utf8(d.blocked_detail);
    let name = encode_utf8(d.name);
    let n = detail.len() as int;
    lemma_there(r, 1, 0, 0, d.extension_id);
    lemma_there(r, 9, 0, 0, d.definition_revision);
    lemma_there(r, 19, 0, 0, d.attempt);
    lemma_there(r, 27, 0, 0, d.last_running_attempt);
    lemma_there(r, 35, 0, d.failure_count, 0);
    lemma_there(r, 39, 0, 0, d.next_start_unix_ms);
    lemma_there(r, 48, n as u16, 0, 0);
    lemma_there(r, 82 + n, name.len() as u16, 0, 0);
    assert(r.subrange(1, 9) =~= le64(d.extension_id));
    assert(r.subrange(9, 17) =~= le64(d.definition_revision));
    assert(r.subrange(19, 27) =~= le64(d.attempt));
    assert(r.subrange(27, 35) =~= le64(d.last_running_attempt));
    assert(r.subrange(35, 39) =~= le32(d.failure_count));
    assert(r.subrange(39, 47) =~= le64(d.next_start_unix_ms));
    assert(r.subrange(48, 50) =~= le16(n as u16));
    assert(r.subrange(50, 50 + n) =~= detail);
    assert(r.subrange(50 + n, 82 + n) =~= d.hash);
    assert(r.subrange(82 + n, 84 + n) =~= le16(name.len() as u16));
    assert(r.skip(84 + n) =~= name);
}

/// Records of the first two versions are still read: the first tells nothing of failures,
/// and neither of being blocked.
pub proof fn law_older_records_are_read(bytes: Seq<u8>)
    ensures
        parse_state(bytes, 1) == Ok::<_, CatalogErrorView>(
            (0u32, 0u64, false, Seq::<char>::empty(), 35nat),
        ),
        bytes.len() >= 47 ==> parse_state(bytes, 2) == Ok::<_, CatalogErrorView>(
            (u32_at(bytes, 35), u64_at(bytes, 39), false, Seq::<char>::empty(), 47nat),
        ),
        bytes.len() < 47 ==> parse_state(bytes, 2) is Err,
{
}

/// A record of any other version is refused.
pub proof fn law_unknown_records_are_refused(bytes: Seq<u8>, rules: CatalogRules)
    requires
        bytes.len() == 0 || bytes[0] == 0 || bytes[0] > 3,
    ensures
        parse_definition(bytes, rules) is Err,
{
}

/// Arguments are stored behind their number, each behind its length.
pub proof fn law_where_arguments_are(args: Seq<Seq<char>>, one: Seq<char>)
    requires
        args.len() <= 0xffff,
    ensures
        argument_record(args).take(2) == le16(args.len() as u16),
        argument_record(args).skip(2) == list_bytes(args),
        list_bytes(Seq::empty()).len() == 0,
        list_bytes(args.push(one)) == list_bytes(args) + le32(encode_utf8(one).len() as u32)
            + encode_utf8(one),
        argument_size(Seq::empty()) == 2,
        argument_size(args.push(one)) == argument_size(args) + 4 + encode_utf8(one).len(),
{
    lemma_le_bytes_len(args.len(), 2);
    assert(argument_record(args).take(2) =~= le16(args.len() as u16));
    assert(argument_record(args).skip(2) =~= list_bytes(args));
    assert(args.push(one).drop_last() =~= args);
}

/// What may be stored has an id and a revision, is detached and kept, sets no bit that has
/// no meaning, has run no later than its last attempt, and gives a reason only where it
/// is blocked.
pub proof fn law_what_may_be_stored(d: PersistentView, rules: CatalogRules)
    ensures
        ({
            let both = rules.flag_detach | rules.flag_persist;
            identity_ok(d, rules) <==> {
                &&& d.extension_id > 0 && d.definition_revision > 0
                &&& d.flags & !rules.flags_known == 0 && d.flags & both == both
                &&& d.last_running_attempt <= d.attempt
                &&& encode_utf8(d.blocked_detail).len() <= rules.max_detail
                &&& !d.blocked ==> d.blocked_detail.len() == 0
            }
        }),
{
}

/// A flag is set, cleared or left alone, and the others with it.
pub proof fn law_flags_are_set_alone(flags: u8, bit: u8, other: u8)
    requires
        bit & other == 0,
    ensures
        flag_set(flags, bit, Some(true)) & bit == bit,
        flag_set(flags, bit, Some(false)) & bit == 0,
        flag_set(flags, bit, None) == flags,
        flag_set(flags, bit, Some(true)) & other == flags & other,
        flag_set(flags, bit, Some(false)) & other == flags & other,
{
    assert((flags | bit) & bit == bit && (flags & !bit) & bit == 0 && (flags | bit) & other == flags
        & other && (flags & !bit) & other == flags & other) by (bit_vector)
        requires
            bit & other == 0,
    ;
}

/// A change is refused where it would count attempts backwards, run later than the last
/// attempt or earlier than before, or give too long a reason.
pub proof fn law_which_changes_are_refused(
    d: PersistentView,
    c: LifecycleChange<'_>,
    rules: CatalogRules,
)
    ensures
        ({
            let attempt = if c.attempt is Some {
                c.attempt->0
            } else {
                d.attempt
            };
            let back = attempt < d.attempt;
            let run = c.last_running_attempt is Some && (c.last_running_attempt->0
                < d.last_running_attempt || c.last_running_attempt->0 > attempt);
            let long = c.blocked matches Some(BlockedState::Blocked(t)) && encode_utf8(t@).len()
                > rules.max_detail;
            &&& lifecycle_fault(d, c, rules) is None <==> !back && !run && !long
            &&& lifecycle_fault(d, c, rules) is Some ==> lifecycle_fault(d, c, rules)->0 is Invalid
        }),
{
}

/// A change sets what it names and nothing else.
pub proof fn law_changes_set_what_they_name(
    d: PersistentView,
    c: LifecycleChange<'_>,
    rules: CatalogRules,
)
    requires
        rules.flag_enabled & rules.flag_desired_running == 0,
    ensures
        ({
            let e = lifecycle_set(d, c, rules);
            let on = rules.flag_enabled;
            let run = rules.flag_desired_running;
            &&& e.attempt == (if c.attempt is Some {
                c.attempt->0
            } else {
                d.attempt
            })
            &&& e.last_running_attempt == (if c.last_running_attempt is Some {
                c.last_running_attempt->0
            } else {
                d.last_running_attempt
            })
            &&& e.failure_count == (if c.failure_count is Some {
                c.failure_count->0
            } else {
                d.failure_count
            })
            &&& e.next_start_unix_ms == (if c.next_start_unix_ms is Some {
                c.next_start_unix_ms->0
            } else {
                d.next_start_unix_ms
            })
            &&& c.enabled == Some(true) ==> e.flags & on == on
            &&& c.enabled == Some(false) ==> e.flags & on == 0
            &&& c.enabled is None ==> e.flags & on == d.flags & on
            &&& c.desired_running == Some(true) ==> e.flags & run == run
            &&& c.desired_running == Some(false) ==> e.flags & run == 0
            &&& c.desired_running is None ==> e.flags & run == d.flags & run
            &&& c.enabled is None && c.desired_running is None ==> e.flags == d.flags
            &&& c.blocked is None ==> e.blocked == d.blocked && e.blocked_detail == d.blocked_detail
            &&& c.blocked is Some && c.blocked->0 is Clear ==> !e.blocked && e.blocked_detail.len()
                == 0
            &&& c.blocked matches Some(BlockedState::Blocked(t)) ==> e.blocked && e.blocked_detail
                == t@
            &&& e.extension_id == d.extension_id && e.definition_revision == d.definition_revision
                && e.hash == d.hash && e.name == d.name && e.restart == d.restart
                && e.argument_bytes == d.argument_bytes
        }),
{
    let on = rules.flag_enabled;
    let run = rules.flag_desired_running;
    assert(run & on == 0) by (bit_vector)
        requires
            on & run == 0,
    ;
    let mid = flag_set(d.flags, on, c.enabled);
    law_flags_are_set_alone(d.flags, on, run);
    law_flags_are_set_alone(mid, run, on);
}

/// A new extension is at its first revision, detached, kept, enabled and wanted, and has
/// never run.
pub proof fn law_new_record(
    id: u64,
    hash: Seq<u8>,
    name: Seq<char>,
    args: Seq<Seq<char>>,
    restart: u8,
    rules: CatalogRules,
)
    ensures
        ({
            let d = new_definition(id, hash, name, args, restart, rules);
            &&& d.extension_id == id && d.definition_revision == 1 && d.hash == hash && d.name
                == name && d.restart == restart && d.argument_bytes == argument_size(args)
            &&& d.attempt == 0 && d.last_running_attempt == 0 && d.failure_count == 0
                && d.next_start_unix_ms == 0 && !d.blocked && d.blocked_detail.len() == 0
            &&& d.flags & rules.flag_detach == rules.flag_detach && d.flags & rules.flag_persist
                == rules.flag_persist && d.flags & rules.flag_enabled == rules.flag_enabled
                && d.flags & rules.flag_desired_running == rules.flag_desired_running
        }),
{
    let a = rules.flag_detach;
    let b = rules.flag_persist;
    let c = rules.flag_enabled;
    let e = rules.flag_desired_running;
    assert((a | b | c | e) & a == a && (a | b | c | e) & b == b && (a | b | c | e) & c == c && (a | b
        | c | e) & e == e) by (bit_vector);
}

/// An updated extension is one revision further, with its new object, arguments and
/// policy; its failures are forgotten, and who it is and how often it ran are not.
pub proof fn law_updated_record(
    d: PersistentView,
    hash: Seq<u8>,
    args: Seq<Seq<char>>,
    restart: u8,
)
    requires
        d.definition_revision < u64::MAX,
    ensures
        ({
            let e = updated_definition(d, hash, args, restart);
            &&& e.definition_revision == d.definition_revision + 1
            &&& e.hash == hash && e.restart == restart && e.argument_bytes == argument_size(args)
            &&& e.failure_count == 0 && e.next_start_unix_ms == 0 && !e.blocked
                && e.blocked_detail.len() == 0
            &&& e.extension_id == d.extension_id && e.name == d.name && e.flags == d.flags
                && e.attempt == d.attempt && e.last_running_attempt == d.last_running_attempt
        }),
{
}

/// What is created is stored under a name and an id that nothing has, where there is a
/// place for it and a store; each thing that stands in its way is told apart.
pub proof fn law_what_is_created(
    m: Map<u64, PersistentView>,
    count: nat,
    max_persistent: nat,
    available: bool,
    id: u64,
    hash: Seq<u8>,
    name: Seq<char>,
    args: Seq<Seq<char>>,
    restart: u8,
    rules: CatalogRules,
)
    requires
        rules.wf(),
        fields_fault(name, args, restart, rules) is None,
        argument_size(args) <= usize::MAX,
        identity_ok(new_definition(id, hash, name, args, restart, rules), rules) || id == 0,
    ensures
        ({
            let r = creation_of(
                m,
                count,
                max_persistent,
                available,
                id,
                hash,
                name,
                args,
                restart,
                rules,
            );
            let taken = id == 0 || m.dom().contains(id) || exists|k: u64| #[trigger]
                m.dom().contains(k) && m[k].name == name;
            &&& taken ==> r == Err::<ChangeView, _>(CatalogErrorView::Conflict)
            &&& !taken && count >= max_persistent ==> r == Err::<ChangeView, _>(
                CatalogErrorView::Budget,
            )
            &&& !taken && count < max_persistent && !available ==> r == Err::<ChangeView, _>(
                CatalogErrorView::Unavailable,
            )
            &&& !taken && count < max_persistent && available ==> (r matches Ok(c)
                && c.definition.extension_id == id && c.definition.name == name && c.definition.hash
                == hash && c.record is Some && c.record->0 == definition_record(c.definition)
                + argument_record(args))
        }),
{
}

/// What is updated is the extension of that name, at the revision that was expected; each
/// thing that stands in its way is told apart.
pub proof fn law_what_is_updated(
    m: Map<u64, PersistentView>,
    available: bool,
    id: u64,
    expected_id: u64,
    expected_revision: u64,
    hash: Seq<u8>,
    args: Seq<Seq<char>>,
    restart: u8,
    rules: CatalogRules,
)
    requires
        rules.wf(),
        m.dom().contains(id),
        m[id].extension_id == id,
        forall|k: u64| #[trigger] m.dom().contains(k) && m[k].name == m[id].name ==> k == id,
        fields_fault(m[id].name, args, restart, rules) is None,
        argument_size(args) <= usize::MAX,
        identity_ok(m[id], rules),
    ensures
        ({
            let r = update_of(
                m,
                available,
                expected_id,
                expected_revision,
                m[id].name,
                hash,
                args,
                restart,
                rules,
            );
            let expected = expected_id == id && expected_revision == m[id].definition_revision;
            &&& !expected ==> r == Err::<ChangeView, _>(CatalogErrorView::Conflict)
            &&& expected && m[id].definition_revision == u64::MAX ==> r == Err::<ChangeView, _>(
                CatalogErrorView::Budget,
            )
            &&& expected && m[id].definition_revision < u64::MAX && !available ==> r == Err::<
                ChangeView,
                _,
            >(CatalogErrorView::Unavailable)
            &&& expected && m[id].definition_revision < u64::MAX && available ==> (r matches Ok(c)
                && c.definition.extension_id == id && c.definition.definition_revision
                == m[id].definition_revision + 1 && c.definition.hash == hash && c.record is Some
                && c.record->0 == definition_record(c.definition) + argument_record(args))
        }),
{
    let found = crate::extension_catalog::id_of_name(m, m[id].name);
    assert(m.dom().contains(found) && m[found].name == m[id].name);
    assert(found == id);
    vstd::utf8::encode_utf8_valid_utf8(Seq::<char>::empty());
    assert(encode_utf8(Seq::<char>::empty()).len() == 0);
}

/// A name that nothing is stored under is not updated.
pub proof fn law_unknown_names_are_not_updated(
    m: Map<u64, PersistentView>,
    available: bool,
    expected_id: u64,
    expected_revision: u64,
    name: Seq<char>,
    hash: Seq<u8>,
    args: Seq<Seq<char>>,
    restart: u8,
    rules: CatalogRules,
)
    requires
        fields_fault(name, args, restart, rules) is None,
        forall|k: u64| #[trigger] m.dom().contains(k) ==> m[k].name != name,
    ensures
        update_of(
            m,
            available,
            expected_id,
            expected_revision,
            name,
            hash,
            args,
            restart,
            rules,
        ) == Err::<ChangeView, _>(CatalogErrorView::NotFound),
{
}

/// The arguments that were stored are read back, for the revision that they were stored
/// with and no other.
pub proof fn law_stored_arguments_are_read_back(
    d: PersistentView,
    args: Seq<Seq<char>>,
    revision: u64,
    rules: CatalogRules,
)
    requires
        rules.wf(),
        d.hash.len() == 32,
        encoded(d, args, rules) is Ok,
    ensures
        ({
            let stored = Some(encoded(d, args, rules)->Ok_0);
            let r = arguments_of(d.extension_id, revision, stored, true, rules);
            &&& revision == d.definition_revision ==> r == Ok::<_, CatalogErrorView>(args)
            &&& revision != d.definition_revision ==> r == Err::<Seq<Seq<char>>, _>(
                CatalogErrorView::Conflict,
            )
            &&& arguments_of(d.extension_id, revision, stored, false, rules) == Err::<
                Seq<Seq<char>>,
                _,
            >(CatalogErrorView::Unavailable)
            &&& arguments_of(d.extension_id, revision, None, true, rules) == Err::<
                Seq<Seq<char>>,
                _,
            >(CatalogErrorView::NotFound)
        }),
{
    let raw = argument_record(args);
    lemma_argument_size(args);
    law_arguments_round_trip(args, rules);
    assert(arguments_fault(Seq::<Seq<char>>::empty(), 0, rules) is None);
    assert(encoded_raw(d, raw, rules) is Ok);
    law_definition_round_trip(d, raw, rules);
    let all = definition_record(d) + raw;
    let n = definition_record(d).len() as int;
    assert(all.subrange(n, all.len() as int) =~= raw);
}

/// A change of what an extension has come to is stored with the arguments that it had.
pub proof fn law_metadata_keeps_the_arguments(
    d: PersistentView,
    e: PersistentView,
    raw: Seq<u8>,
    rules: CatalogRules,
)
    requires
        rules.wf(),
        d.hash.len() == 32,
        encoded_raw(d, raw, rules) is Ok,
        encoded_raw(e, raw, rules) is Ok,
        e.extension_id == d.extension_id,
        e.definition_revision == d.definition_revision,
        e.hash == d.hash,
        e.name == d.name,
        e.restart == d.restart,
        e.argument_bytes == d.argument_bytes,
    ensures
        metadata_change(e, Some(definition_record(d) + raw), true, rules) == Ok::<
            _,
            CatalogErrorView,
        >(ChangeView { definition: e, record: Some(definition_record(e) + raw) }),
        metadata_change(e, Some(definition_record(d) + raw), false, rules) == Err::<ChangeView, _>(
            CatalogErrorView::Unavailable,
        ),
        metadata_change(e, None, true, rules) == Err::<ChangeView, _>(CatalogErrorView::NotFound),
{
    law_definition_round_trip(d, raw, rules);
    let all = definition_record(d) + raw;
    let n = definition_record(d).len() as int;
    assert(all.subrange(n, all.len() as int) =~= raw);
}

/// A catalog in which an id or a name comes twice, or a record does not have the id that
/// it is stored under, is not opened.
pub proof fn law_inconsistent_catalogs_are_not_opened(
    rows: Seq<(u64, Seq<u8>)>,
    row: (u64, Seq<u8>),
    d: PersistentView,
    n: nat,
    rules: CatalogRules,
)
    requires
        parse_definition(row.1, rules) == Ok::<_, CatalogErrorView>((d, n)),
        opened(rows, rules) is Ok,
    ensures
        ({
            let m = opened(rows, rules)->Ok_0;
            let twice = d.extension_id != row.0 || m.dom().contains(row.0) || exists|k: u64| #[trigger]
                m.dom().contains(k) && m[k].name == d.name;
            &&& twice ==> opened(rows.push(row), rules) is Err
            &&& !twice ==> opened(rows.push(row), rules) == Ok::<_, CatalogErrorView>(
                m.insert(row.0, d),
            )
        }),
{
    assert(rows.push(row).drop_last() =~= rows);
}

/// The catalog is where a setting says, and else below a directory that is known; it is
/// nowhere where none is.
pub proof fn law_catalog_place(platform: Platform, s: CatalogSettings)
    ensures
        ({
            let r = catalog_place(platform, s);
            let given = s.extension_path || s.extension_db;
            &&& s.extension_path ==> (r matches Some((CatalogBase::ExtensionPath, _)))
            &&& !s.extension_path && s.extension_db ==> (r matches Some(
                (CatalogBase::ExtensionDb, _),
            ))
            &&& !given && platform is Unix && s.state_home ==> (r matches Some(
                (CatalogBase::StateHome, _),
            ))
            &&& !given && platform is Unix && !s.state_home && s.home ==> (r matches Some(
                (CatalogBase::Home, _),
            ))
            &&& !given && platform is MacOs && s.home ==> (r matches Some((CatalogBase::Home, _)))
            &&& !given && platform is Windows && s.app_data ==> (r matches Some(
                (CatalogBase::AppData, _),
            ))
            &&& r is None <==> !given && match platform {
                Platform::MacOs => !s.home,
                Platform::Unix => !s.state_home && !s.home,
                Platform::Windows => !s.app_data,
            }
        }),
{
}

} // verus!
