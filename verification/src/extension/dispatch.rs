//! Where a message of the extension family goes, and the replies to those that
//! cannot be handled.

use vstd::prelude::*;

use crate::bytes::{read_u16, read_u64, u16_at, u64_at};
use crate::channel::fabric::ListenerSnapshot;
use crate::extension::announce::Identity;
use crate::extension::definition::{Control, Definition};
use crate::extension::protocol::{spec_zero_hash, zero_hash, ObjectHash, Phase, Status};
use crate::extension::service::Service;
use crate::extension::status::{
    bounded, bounded_detail, fixed_status, id_status, put_status, run_error, run_error_status,
    PutReply, PutView, StatusReply, StatusView,
};

verus! {

/// The first bytes of the messages that clients send, and the second byte of a
/// command registration.
pub struct Opcodes {
    pub run: u8,
    pub put: u8,
    pub control: u8,
    pub event: u8,
    pub command: u8,
    pub command_register: u8,
}

/// The reply to a command registration.
pub struct CommandReply {
    pub nonce: u16,
    pub status: Status,
    pub extension_id: u64,
    pub definition_revision: u64,
    pub detail: String,
}

/// A reply of the extension family.
pub enum Reply {
    Status(StatusReply),
    /// A list of no definitions.
    List { nonce: u16, status: Status },
    Put(PutReply),
    Registered(CommandReply),
    /// A page of no commands.
    Commands { nonce: u16, status: Status },
}

/// What a [`Reply`] says.
pub ghost enum ReplyView {
    Status(StatusView),
    List { nonce: u16, status: Status },
    Put(PutView),
    Registered {
        nonce: u16,
        status: Status,
        extension_id: u64,
        definition_revision: u64,
        detail: Seq<char>,
    },
    Commands { nonce: u16, status: Status },
}

impl View for Reply {
    type V = ReplyView;

    open spec fn view(&self) -> ReplyView {
        match self {
            Reply::Status(s) => ReplyView::Status(s@),
            Reply::List { nonce, status } => ReplyView::List { nonce: *nonce, status: *status },
            Reply::Put(p) => ReplyView::Put(p@),
            Reply::Registered(c) => ReplyView::Registered {
                nonce: c.nonce,
                status: c.status,
                extension_id: c.extension_id,
                definition_revision: c.definition_revision,
                detail: c.detail@,
            },
            Reply::Commands { nonce, status } => ReplyView::Commands {
                nonce: *nonce,
                status: *status,
            },
        }
    }
}

/// What of a request its refusal needs.
#[derive(Clone, Copy)]
pub enum Addressed {
    Run { nonce: u16, hash: ObjectHash },
    List { nonce: u16 },
    Control { nonce: u16, extension_id: u64 },
    Put { nonce: u16, hash: ObjectHash },
    CommandRegister { nonce: u16 },
    CommandDiscover { nonce: u16 },
    Event,
}

/// How a request is refused where extensions are disabled. Events are not
/// answered.
pub open spec fn disabled_reply(a: Addressed, detail: Seq<char>, max: nat) -> Option<ReplyView> {
    match a {
        Addressed::Run { nonce, hash } => Some(
            ReplyView::Status(run_error(nonce, Status::Permission, hash@, detail, max)),
        ),
        Addressed::List { nonce } => Some(ReplyView::List { nonce, status: Status::Permission }),
        Addressed::Control { nonce, extension_id } => Some(
            ReplyView::Status(id_status(nonce, Status::Permission, extension_id, detail, max)),
        ),
        Addressed::Put { nonce, hash } => Some(
            ReplyView::Put(
                PutView {
                    nonce,
                    status: Status::Permission,
                    hash: hash@,
                    received: 0,
                    detail: bounded(detail, max),
                },
            ),
        ),
        Addressed::CommandRegister { nonce } => Some(
            ReplyView::Registered {
                nonce,
                status: Status::Permission,
                extension_id: 0,
                definition_revision: 0,
                detail,
            },
        ),
        Addressed::CommandDiscover { nonce } => Some(
            ReplyView::Commands { nonce, status: Status::Permission },
        ),
        Addressed::Event => None,
    }
}

/// Why extensions are disabled: what went wrong at startup, or the policy.
pub open spec fn disabled_detail(diagnostic: Option<String>) -> Seq<char> {
    match diagnostic {
        Some(d) => d@,
        None => "extensions are disabled by server policy"@,
    }
}

/// Refuses a request where extensions are disabled.
pub fn reply_disabled(a: Addressed, diagnostic: &Option<String>, detail_max: usize) -> (r: Option<
    Reply,
>)
    ensures
        match r {
            Some(x) => disabled_reply(a, disabled_detail(*diagnostic), detail_max as nat) == Some(
                x@,
            ),
            None => disabled_reply(a, disabled_detail(*diagnostic), detail_max as nat) is None,
        },
{
    let detail: &str = match diagnostic {
        Some(d) => d.as_str(),
        None => "extensions are disabled by server policy",
    };
    match a {
        Addressed::Run { nonce, hash } => Some(
            Reply::Status(run_error_status(nonce, Status::Permission, hash, detail, detail_max)),
        ),
        Addressed::List { nonce } => Some(Reply::List { nonce, status: Status::Permission }),
        Addressed::Control { nonce, extension_id } => Some(
            Reply::Status(
                fixed_status(nonce, Status::Permission, extension_id, detail, detail_max),
            ),
        ),
        Addressed::Put { nonce, hash } => Some(
            Reply::Put(put_status(nonce, Status::Permission, hash, 0, detail, detail_max)),
        ),
        Addressed::CommandRegister { nonce } => Some(
            Reply::Registered(
                CommandReply {
                    nonce,
                    status: Status::Permission,
                    extension_id: 0,
                    definition_revision: 0,
                    detail: detail.to_owned(),
                },
            ),
        ),
        Addressed::CommandDiscover { nonce } => Some(
            Reply::Commands { nonce, status: Status::Permission },
        ),
        Addressed::Event => None,
    }
}

/// The reply to a command registration.
pub fn command_registered(
    nonce: u16,
    status: Status,
    extension_id: u64,
    definition_revision: u64,
    detail: &str,
    detail_max: usize,
) -> (r: CommandReply)
    ensures
        r.nonce == nonce,
        r.status == status,
        r.extension_id == extension_id,
        r.definition_revision == definition_revision,
        r.detail@ == bounded(detail@, detail_max as nat),
{
    CommandReply {
        nonce,
        status,
        extension_id,
        definition_revision,
        detail: bounded_detail(detail, detail_max),
    }
}

/// The number at `at` of a packet, or zero where the packet is too short.
pub open spec fn field16(packet: Seq<u8>, at: nat) -> u16 {
    if at + 2 <= packet.len() {
        u16_at(packet, at as int)
    } else {
        0
    }
}

pub open spec fn field64(packet: Seq<u8>, at: nat) -> u64 {
    if at + 8 <= packet.len() {
        u64_at(packet, at as int)
    } else {
        0
    }
}

/// The hash at `at` of a packet, or that of no object where the packet is too
/// short.
pub open spec fn field_hash(packet: Seq<u8>, at: nat) -> Seq<u8> {
    if at + 32 <= packet.len() {
        packet.subrange(at as int, at as int + 32)
    } else {
        spec_zero_hash()
    }
}

pub fn packet_u16(packet: &[u8], at: usize) -> (v: u16)
    ensures
        v == field16(packet@, at as nat),
{
    if packet.len() >= 2 && at <= packet.len() - 2 {
        read_u16(packet, at)
    } else {
        0
    }
}

pub fn packet_u64(packet: &[u8], at: usize) -> (v: u64)
    ensures
        v == field64(packet@, at as nat),
{
    if packet.len() >= 8 && at <= packet.len() - 8 {
        read_u64(packet, at)
    } else {
        0
    }
}

pub fn packet_hash(packet: &[u8], at: usize) -> (h: ObjectHash)
    ensures
        h@ == field_hash(packet@, at as nat),
{
    let mut h: ObjectHash = zero_hash();
    if packet.len() >= 32 && at <= packet.len() - 32 {
        let total: usize = packet.len();
        let mut i: usize = 0;
        while i < 32
            invariant
                i <= 32,
                total == packet@.len(),
                at + 32 <= total,
                forall|k: int| 0 <= k < i ==> h@[k] == packet@[at + k],
            decreases 32 - i,
        {
            h[i] = packet[at + i];
            i = i + 1;
        }
        proof {
            assert(h@ =~= packet@.subrange(at as int, at as int + 32));
        }
    }
    h
}

/// How a packet is answered that could not be decoded, as far as it names a
/// request.
pub open spec fn decode_reply(packet: Seq<u8>, codes: Opcodes, detail: Seq<char>, max: nat) -> Option<
    ReplyView,
> {
    if packet.len() == 0 || packet[0] == codes.event {
        None
    } else if packet[0] == codes.run {
        Some(
            ReplyView::Status(
                run_error(
                    field16(packet, 1),
                    Status::Invalid,
                    field_hash(packet, 21),
                    detail,
                    max,
                ),
            ),
        )
    } else if packet[0] == codes.put {
        Some(
            ReplyView::Put(
                PutView {
                    nonce: field16(packet, 1),
                    status: Status::Invalid,
                    hash: field_hash(packet, 4),
                    received: 0,
                    detail: bounded(detail, max),
                },
            ),
        )
    } else if packet[0] == codes.control {
        Some(
            ReplyView::Status(
                id_status(
                    field16(packet, 1),
                    Status::Invalid,
                    field64(packet, 3),
                    detail,
                    max,
                ),
            ),
        )
    } else if packet[0] == codes.command {
        if packet.len() >= 2 && packet[1] == codes.command_register {
            Some(
                ReplyView::Registered {
                    nonce: field16(packet, 2),
                    status: Status::Invalid,
                    extension_id: 0,
                    definition_revision: 0,
                    detail: bounded(detail, max),
                },
            )
        } else {
            Some(ReplyView::Commands { nonce: field16(packet, 2), status: Status::Invalid })
        }
    } else {
        None
    }
}

/// Answers a packet that could not be decoded.
pub fn reply_decode_error(packet: &[u8], codes: &Opcodes, detail: &str, detail_max: usize) -> (r:
    Option<Reply>)
    ensures
        match r {
            Some(x) => decode_reply(packet@, *codes, detail@, detail_max as nat) == Some(x@),
            None => decode_reply(packet@, *codes, detail@, detail_max as nat) is None,
        },
{
    if packet.len() == 0 {
        return None;
    }
    let first: u8 = packet[0];
    if first == codes.event {
        None
    } else if first == codes.run {
        Some(
            Reply::Status(
                run_error_status(
                    packet_u16(packet, 1),
                    Status::Invalid,
                    packet_hash(packet, 21),
                    detail,
                    detail_max,
                ),
            ),
        )
    } else if first == codes.put {
        Some(
            Reply::Put(
                put_status(
                    packet_u16(packet, 1),
                    Status::Invalid,
                    packet_hash(packet, 4),
                    0,
                    detail,
                    detail_max,
                ),
            ),
        )
    } else if first == codes.control {
        Some(
            Reply::Status(
                fixed_status(
                    packet_u16(packet, 1),
                    Status::Invalid,
                    packet_u64(packet, 3),
                    detail,
                    detail_max,
                ),
            ),
        )
    } else if first == codes.command {
        if packet.len() >= 2 && packet[1] == codes.command_register {
            Some(
                Reply::Registered(
                    command_registered(
                        packet_u16(packet, 2),
                        Status::Invalid,
                        0,
                        0,
                        detail,
                        detail_max,
                    ),
                ),
            )
        } else {
            Some(Reply::Commands { nonce: packet_u16(packet, 2), status: Status::Invalid })
        }
    } else {
        None
    }
}

/// What a message that an extension sent is, as far as its lane depends on it.
#[derive(Clone, Copy, Debug, PartialEq, Eq, Structural)]
pub enum Sent {
    /// A run request: whether it is persistent, and whether its arguments are
    /// text.
    Run { persist: bool, text: bool },
    /// An upload chunk: whether it is the first, and whether it is the last.
    Put { begin: bool, last: bool },
    /// Anything else, known or not.
    Other,
}

/// Where a message that an extension sent is handled.
#[derive(Clone, Copy, Debug, PartialEq, Eq, Structural)]
pub enum Lane {
    /// On the connection's reader.
    Inline,
    /// In a job of its own.
    Job,
    /// In a job of its own that waits for the connection's earlier uploads.
    OrderedJob,
}

/// A message is handled in a job of its own where it may touch the object store:
/// every upload chunk, and every run that is not refused at once.
pub open spec fn spec_lane(advertised: bool, persist_allowed: bool, m: Sent) -> Lane {
    if !advertised {
        Lane::Inline
    } else {
        match m {
            Sent::Run { persist, text } => if persist && (!persist_allowed || !text) {
                Lane::Inline
            } else {
                Lane::Job
            },
            Sent::Put { .. } => Lane::OrderedJob,
            Sent::Other => Lane::Inline,
        }
    }
}

pub fn lane(advertised: bool, persist_allowed: bool, m: Sent) -> (l: Lane)
    ensures
        l == spec_lane(advertised, persist_allowed, m),
{
    if !advertised {
        return Lane::Inline;
    }
    match m {
        Sent::Run { persist, text } => if persist && (!persist_allowed || !text) {
            Lane::Inline
        } else {
            Lane::Job
        },
        Sent::Put { .. } => Lane::OrderedJob,
        Sent::Other => Lane::Inline,
    }
}

/// Whether a job waits for a place to validate before it goes on.
pub fn job_validates(m: Sent) -> (r: bool)
    ensures
        r == match m {
            Sent::Run { .. } => true,
            Sent::Put { begin, last } => begin || last,
            Sent::Other => false,
        },
{
    match m {
        Sent::Run { .. } => true,
        Sent::Put { begin, last } => begin || last,
        Sent::Other => false,
    }
}

/// Who registers commands.
pub struct CommandOwner {
    pub endpoint_id: u64,
    pub endpoint_generation: u64,
    pub extension_id: u64,
    pub definition_revision: u64,
    pub attempt: u64,
    pub hash: ObjectHash,
    pub name: String,
    pub persistent: bool,
    pub enabled: bool,
    /// Whether the registering attempt is the one that runs.
    pub running: bool,
}

/// The listener that a command is served by.
pub struct CommandListener {
    pub endpoint_id: u64,
    pub endpoint_generation: u64,
    pub listener_id: u32,
    pub listener_generation: u64,
    pub name: String,
    pub token: Vec<u8>,
}

/// Whether a command's listener is the one that its channel has open.
pub open spec fn listens(
    l: CommandListener,
    endpoint_generation: u64,
    snapshot: ListenerSnapshot,
) -> bool {
    &&& l.endpoint_id == snapshot.endpoint
    &&& l.endpoint_generation == endpoint_generation
    &&& l.listener_id == snapshot.channel_id
    &&& l.listener_generation == snapshot.generation
    &&& l.name == snapshot.name
    &&& l.token == snapshot.token
}

/// The listener that a registration names, as its channel has it open. A
/// registration that names number zero names none.
pub fn command_listener(
    listener_id: u32,
    endpoint_generation: u64,
    open: Option<ListenerSnapshot>,
) -> (r: Option<CommandListener>)
    ensures
        match open {
            Some(snapshot) => if listener_id == 0 {
                r is None
            } else {
                r matches Some(l) && listens(l, endpoint_generation, snapshot)
            },
            None => r is None,
        },
{
    if listener_id == 0 {
        return None;
    }
    match open {
        None => None,
        Some(snapshot) => Some(
            CommandListener {
                endpoint_id: snapshot.endpoint,
                endpoint_generation,
                listener_id: snapshot.channel_id,
                listener_generation: snapshot.generation,
                name: snapshot.name,
                token: snapshot.token,
            },
        ),
    }
}

/// What the directory made of a registration.
pub enum RegisterOutcome {
    /// It was refused at once.
    Refused { status: Status, detail: String },
    /// It was taken for this definition, and refused when it was to be
    /// published.
    Overtaken { extension_id: u64, definition_revision: u64, status: Status, detail: String },
    /// It is published for this definition.
    Published { extension_id: u64, definition_revision: u64 },
}

/// How a registration is answered: for the definition that it was published or
/// taken for, else for `target`.
pub open spec fn registration_answer(
    nonce: u16,
    target: (u64, u64),
    outcome: RegisterOutcome,
    max: nat,
) -> ReplyView {
    match outcome {
        RegisterOutcome::Refused { status, detail } => ReplyView::Registered {
            nonce,
            status,
            extension_id: target.0,
            definition_revision: target.1,
            detail: bounded(detail@, max),
        },
        RegisterOutcome::Overtaken { extension_id, definition_revision, status, detail } =>
            ReplyView::Registered {
            nonce,
            status,
            extension_id,
            definition_revision,
            detail: bounded(detail@, max),
        },
        RegisterOutcome::Published { extension_id, definition_revision } => ReplyView::Registered {
            nonce,
            status: Status::Success,
            extension_id,
            definition_revision,
            detail: bounded(""@, max),
        },
    }
}

/// Answers a registration. `target` is what [`Service::registration_target`] gave.
pub fn registration_reply(
    nonce: u16,
    target: (u64, u64),
    outcome: RegisterOutcome,
    detail_max: usize,
) -> (r: Reply)
    ensures
        r@ == registration_answer(nonce, target, outcome, detail_max as nat),
{
    match outcome {
        RegisterOutcome::Refused { status, detail } => Reply::Registered(
            command_registered(nonce, status, target.0, target.1, detail.as_str(), detail_max),
        ),
        RegisterOutcome::Overtaken { extension_id, definition_revision, status, detail } =>
            Reply::Registered(
            command_registered(
                nonce,
                status,
                extension_id,
                definition_revision,
                detail.as_str(),
                detail_max,
            ),
        ),
        RegisterOutcome::Published { extension_id, definition_revision } => Reply::Registered(
            command_registered(
                nonce,
                Status::Success,
                extension_id,
                definition_revision,
                "",
                detail_max,
            ),
        ),
    }
}

/// Whether an owner is what a definition says of it.
pub open spec fn owns(o: CommandOwner, d: Definition, endpoint: u64, generation: u64, who: Identity) -> bool {
    &&& o.endpoint_id == endpoint
    &&& o.endpoint_generation == generation
    &&& o.extension_id == d.extension_id
    &&& o.definition_revision == d.definition_revision
    &&& o.attempt == who.attempt
    &&& o.hash == d.hash
    &&& o.name@ == d.name@
    &&& o.persistent == d.spec_persistent()
    &&& o.enabled == d.flags.enabled
    &&& o.running == (d.phase == Phase::Running && d.definition_revision
        == who.definition_revision && (d.control matches Some(c) && c.attempt == who.attempt
        && c.task_id == who.task_id))
}

impl Service {
    /// Who registers commands on a connection that belongs to an attempt: there
    /// is nobody where the definition has no attempt.
    pub fn command_owner(&self, endpoint: u64, generation: u64, who: &Identity) -> (r: Option<
        CommandOwner,
    >)
        requires
            self.wf(),
        ensures
            r is Some == (self.has(who.extension_id) && self.spec_definitions()[
                who.extension_id
            ].control is Some),
            r matches Some(o) ==> owns(
                o,
                self.spec_definitions()[who.extension_id],
                endpoint,
                generation,
                *who,
            ),
    {
        match self.registry.definitions.get(who.extension_id) {
            None => None,
            Some(d) => match d.control {
                None => None,
                Some(c) => Some(
                    CommandOwner {
                        endpoint_id: endpoint,
                        endpoint_generation: generation,
                        extension_id: d.extension_id,
                        definition_revision: d.definition_revision,
                        attempt: who.attempt,
                        hash: d.hash,
                        name: d.name.as_str().to_owned(),
                        persistent: d.persistent(),
                        enabled: d.enabled(),
                        running: (match d.phase {
                            Phase::Running => true,
                            _ => false,
                        }) && d.definition_revision == who.definition_revision && c.attempt
                            == who.attempt && c.task_id == who.task_id,
                    },
                ),
            },
        }
    }

    /// The definition that a registration is answered for, whatever becomes of
    /// it: that of its owner, else that of its connection.
    pub fn registration_target(&self, who: Option<Identity>) -> (r: (u64, u64))
        requires
            self.wf(),
        ensures
            r == match who {
                None => (0u64, 0u64),
                Some(w) => {
                    let d = self.spec_definitions()[w.extension_id];
                    if self.has(w.extension_id) && d.control is Some {
                        (d.extension_id, d.definition_revision)
                    } else {
                        (w.extension_id, w.definition_revision)
                    }
                },
            },
    {
        match who {
            None => (0, 0),
            Some(w) => match self.registry.definitions.get(w.extension_id) {
                None => (w.extension_id, w.definition_revision),
                Some(d) => if d.control.is_some() {
                    (d.extension_id, d.definition_revision)
                } else {
                    (w.extension_id, w.definition_revision)
                },
            },
        }
    }
}

} // verus!
