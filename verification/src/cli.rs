//! The command line: what is asked of the service, and what is made of its
//! answers.
use crate::ipc::{
    actions_view, copy_actions, infos_view, ActionTrigger, ActionView, ClientAction, ClientHandle,
    ClientInfo, ClientState, ConfigView, FrontendEvent, FrontendRequest, InfoView, Position,
    RequestView, StateView,
};
use crate::net::{ip_texts, ip_texts_of, lemma_listed, listed_ascending, IpAddr};
use crate::proto::{commit_text, commit_text_of};
use crate::service::{nonempty_fingerprint, ServiceView};
use crate::text::{
    decimal, decimal_is_read_back, decimal_is_trimmed, decimal_of, has_prefix, join, joined,
    opt_text, parse_number, parsed, quote, quote_option, quoted, quoted_option, separated,
    strip_prefix, texts, trim, trimmed, ParseNumberError,
};
use vstd::prelude::*;
use vstd::string::StringExecFns;

verus! {

/// What a text is as a number of 32 bits: hexadecimal behind `0x` or `0X`,
/// else decimal, with white space around it.
pub open spec fn auto_number(s: Seq<char>) -> Result<int, ParseNumberError> {
    let t = trimmed(s);
    if has_prefix(t, "0x"@) || has_prefix(t, "0X"@) {
        parsed(t.skip(2), 16, u32::MAX as int)
    } else {
        parsed(t, 10, u32::MAX as int)
    }
}

/// Reads a number of 32 bits, hexadecimal behind `0x` or `0X`, else decimal.
pub fn parse_u32_auto(value: &str) -> (res: Result<u32, String>)
    ensures
        match (auto_number(value@), res) {
            (Ok(n), Ok(r)) => r == n,
            (Err(e), Err(text)) => text@ == e.text(),
            _ => false,
        },
{
    let value = trim(value);
    let hex = match strip_prefix(value, "0x") {
        Some(hex) => Some(hex),
        None => strip_prefix(value, "0X"),
    };
    proof {
        reveal_strlit("0x");
        reveal_strlit("0X");
    }
    let number = match hex {
        Some(hex) => parse_number(hex, 16, u32::MAX as u64),
        None => parse_number(value, 10, u32::MAX as u64),
    };
    match number {
        Ok(n) => Ok(n as u32),
        Err(e) => Err(String::from_str(e.message())),
    }
}

/// Reads a number of eight bits, hexadecimal behind `0x` or `0X`, else
/// decimal.
pub fn parse_u8_auto(value: &str) -> (res: Result<u8, String>)
    ensures
        match (auto_number(value@), res) {
            (Ok(n), Ok(r)) => n <= u8::MAX && r == n,
            (Ok(n), Err(text)) => n > u8::MAX && text@ == quoted(value@) + " is outside u8 range"@,
            (Err(e), Err(text)) => text@ == e.text(),
            (Err(_), Ok(_)) => false,
        },
{
    match parse_u32_auto(value) {
        Ok(n) => if n <= 0xff {
            Ok(n as u8)
        } else {
            Err(joined(quote(value).as_str(), " is outside u8 range"))
        },
        Err(e) => Err(e),
    }
}

/// A number's decimal digits are read back as that number.
pub proof fn decimal_arguments_are_read(n: u32)
    ensures
        auto_number(decimal(n as nat)) == Ok::<int, ParseNumberError>(n as int),
{
    let s = decimal(n as nat);
    decimal_is_trimmed(n as nat);
    decimal_is_read_back(n as nat, u32::MAX as int);
    lemma_no_hex_prefix(n as nat);
}

proof fn lemma_no_hex_prefix(n: nat)
    ensures
        !has_prefix(decimal(n), "0x"@),
        !has_prefix(decimal(n), "0X"@),
    decreases n,
{
    reveal_strlit("0x");
    reveal_strlit("0X");
    let s = decimal(n);
    if n >= 100 {
        lemma_no_hex_prefix(n / 10);
        let t = decimal(n / 10);
        assert(t == decimal(n / 10 / 10).push((0x30 + (n / 10) % 10) as char));
        assert(t.len() >= 2);
        assert(s.take(2) =~= t.take(2));
    } else if n >= 10 {
        assert(decimal(n / 10) == seq![(0x30 + n / 10) as char]);
        assert(s.take(2)[1] == (0x30 + n % 10) as char);
        assert("0x"@[1] == 'x');
        assert("0X"@[1] == 'X');
    }
}

/// When an action is run, on the command line.
#[derive(Clone, Copy, Debug, PartialEq, Eq, Structural)]
pub enum CliActionTrigger {
    Enter,
    Leave,
}

impl CliActionTrigger {
    /// The trigger of the action.
    pub open spec fn trigger(self) -> ActionTrigger {
        match self {
            CliActionTrigger::Enter => ActionTrigger::Enter,
            CliActionTrigger::Leave => ActionTrigger::Leave,
        }
    }
}

impl From<CliActionTrigger> for ActionTrigger {
    fn from(trigger: CliActionTrigger) -> (t: ActionTrigger) {
        match trigger {
            CliActionTrigger::Enter => ActionTrigger::Enter,
            CliActionTrigger::Leave => ActionTrigger::Leave,
        }
    }
}

impl vstd::std_specs::convert::FromSpecImpl<CliActionTrigger> for ActionTrigger {
    open spec fn obeys_from_spec() -> bool {
        true
    }

    open spec fn from_spec(trigger: CliActionTrigger) -> ActionTrigger {
        trigger.trigger()
    }
}

/// How a new client is to be configured.
pub struct ClientArgs {
    pub hostname: Option<String>,
    pub peer_fingerprint: Option<String>,
    pub port: Option<u16>,
    pub ips: Option<Vec<IpAddr>>,
    pub enter_hook: Option<String>,
    pub leave_hook: Option<String>,
}

/// A command.
#[allow(inconsistent_fields)]
pub enum CliSubcommand {
    /// Add a new client.
    AddClient(ClientArgs),
    /// Remove a client.
    RemoveClient { id: ClientHandle },
    /// Activate a client.
    Activate { id: ClientHandle },
    /// Deactivate a client.
    Deactivate { id: ClientHandle },
    /// List the clients.
    List,
    /// Change the name of a client's host.
    SetHost { id: ClientHandle, host: Option<String> },
    /// Change the fingerprint of a client's certificate.
    SetPeerFingerprint { id: ClientHandle, fingerprint: Option<String> },
    /// Change the command that is run when a client is entered.
    SetEnterHook { id: ClientHandle, hook: Option<String> },
    /// Change the command that is run when a client is left.
    SetLeaveHook { id: ClientHandle, hook: Option<String> },
    /// Add an action to a client.
    AddDdcVcpAction {
        id: ClientHandle,
        on: CliActionTrigger,
        monitor: Option<String>,
        code: u8,
        value: u32,
    },
    /// Remove all actions of a client.
    ClearActions { id: ClientHandle },
    /// Change the port of a client.
    SetPort { id: ClientHandle, port: u16 },
    /// Change the position of a client.
    SetPosition { id: ClientHandle, pos: Position },
    /// Change the addresses of a client.
    SetIps { id: ClientHandle, ips: Vec<IpAddr> },
    /// Enable capture again.
    EnableCapture,
    /// Enable emulation again.
    EnableEmulation,
    /// Trust a key.
    AuthorizeKey { description: String, sha256_fingerprint: String },
    /// Trust a key no longer.
    RemoveAuthorizedKey { sha256_fingerprint: String },
    /// Save the configuration.
    SaveConfig,
}

/// What is left to do once the service has answered.
#[allow(inconsistent_fields)]
pub enum Pending {
    /// Configure the new client.
    NewClient(ClientArgs),
    /// Print the clients.
    Listing,
    /// Add an action to those that the client has.
    AddAction {
        id: ClientHandle,
        on: ActionTrigger,
        monitor: Option<String>,
        code: u8,
        value: u32,
    },
}

/// The request that a command starts with.
pub open spec fn first_request(cmd: CliSubcommand) -> RequestView {
    match cmd {
        CliSubcommand::AddClient(_) => RequestView::Create,
        CliSubcommand::RemoveClient { id } => RequestView::Delete(id),
        CliSubcommand::Activate { id } => RequestView::Activate(id, true),
        CliSubcommand::Deactivate { id } => RequestView::Activate(id, false),
        CliSubcommand::List => RequestView::Enumerate,
        CliSubcommand::SetHost { id, host } => RequestView::UpdateHostname(id, opt_text(host)),
        CliSubcommand::SetPeerFingerprint { id, fingerprint } => RequestView::UpdatePeerFingerprint(
            id,
            opt_text(fingerprint),
        ),
        CliSubcommand::SetEnterHook { id, hook } => RequestView::UpdateEnterHook(
            id,
            opt_text(hook),
        ),
        CliSubcommand::SetLeaveHook { id, hook } => RequestView::UpdateLeaveHook(
            id,
            opt_text(hook),
        ),
        CliSubcommand::AddDdcVcpAction { .. } => RequestView::Enumerate,
        CliSubcommand::ClearActions { id } => RequestView::UpdateActions(id, seq![]),
        CliSubcommand::SetPort { id, port } => RequestView::UpdatePort(id, port),
        CliSubcommand::SetPosition { id, pos } => RequestView::UpdatePosition(id, pos),
        CliSubcommand::SetIps { id, ips } => RequestView::UpdateFixIps(id, ips@),
        CliSubcommand::EnableCapture => RequestView::EnableCapture,
        CliSubcommand::EnableEmulation => RequestView::EnableEmulation,
        CliSubcommand::AuthorizeKey { description, sha256_fingerprint } =>
            RequestView::AuthorizeKey(description@, sha256_fingerprint@),
        CliSubcommand::RemoveAuthorizedKey { sha256_fingerprint } =>
            RequestView::RemoveAuthorizedKey(sha256_fingerprint@),
        CliSubcommand::SaveConfig => RequestView::SaveConfiguration,
    }
}

/// What is left of a command behind its first request.
pub open spec fn left_of(cmd: CliSubcommand) -> Option<Pending> {
    match cmd {
        CliSubcommand::AddClient(args) => Some(Pending::NewClient(args)),
        CliSubcommand::List => Some(Pending::Listing),
        CliSubcommand::AddDdcVcpAction { id, on, monitor, code, value } => Some(
            Pending::AddAction { id, on: on.trigger(), monitor, code, value },
        ),
        _ => None,
    }
}

/// Starts a command: the request that is sent, and what is left to do once
/// the service has answered.
pub fn execute(cmd: CliSubcommand) -> (r: (FrontendRequest, Option<Pending>))
    ensures
        r.0@ == first_request(cmd),
        r.1 == left_of(cmd),
{
    match cmd {
        CliSubcommand::AddClient(args) => (FrontendRequest::Create, Some(Pending::NewClient(args))),
        CliSubcommand::RemoveClient { id } => (FrontendRequest::Delete(id), None),
        CliSubcommand::Activate { id } => (FrontendRequest::Activate(id, true), None),
        CliSubcommand::Deactivate { id } => (FrontendRequest::Activate(id, false), None),
        CliSubcommand::List => (FrontendRequest::Enumerate, Some(Pending::Listing)),
        CliSubcommand::SetHost { id, host } => (FrontendRequest::UpdateHostname(id, host), None),
        CliSubcommand::SetPeerFingerprint { id, fingerprint } => (
            FrontendRequest::UpdatePeerFingerprint(id, fingerprint),
            None,
        ),
        CliSubcommand::SetEnterHook { id, hook } => (
            FrontendRequest::UpdateEnterHook(id, hook),
            None,
        ),
        CliSubcommand::SetLeaveHook { id, hook } => (
            FrontendRequest::UpdateLeaveHook(id, hook),
            None,
        ),
        CliSubcommand::AddDdcVcpAction { id, on, monitor, code, value } => (
            FrontendRequest::Enumerate,
            Some(Pending::AddAction { id, on: ActionTrigger::from(on), monitor, code, value }),
        ),
        CliSubcommand::ClearActions { id } => {
            let none: Vec<ClientAction> = Vec::new();
            assert(actions_view(none@) =~= Seq::<ActionView>::empty());
            (FrontendRequest::UpdateActions(id, none), None)
        },
        CliSubcommand::SetPort { id, port } => (FrontendRequest::UpdatePort(id, port), None),
        CliSubcommand::SetPosition { id, pos } => (
            FrontendRequest::UpdatePosition(id, pos),
            None,
        ),
        CliSubcommand::SetIps { id, ips } => (FrontendRequest::UpdateFixIps(id, ips), None),
        CliSubcommand::EnableCapture => (FrontendRequest::EnableCapture, None),
        CliSubcommand::EnableEmulation => (FrontendRequest::EnableEmulation, None),
        CliSubcommand::AuthorizeKey { description, sha256_fingerprint } => (
            FrontendRequest::AuthorizeKey(description, sha256_fingerprint),
            None,
        ),
        CliSubcommand::RemoveAuthorizedKey { sha256_fingerprint } => (
            FrontendRequest::RemoveAuthorizedKey(sha256_fingerprint),
            None,
        ),
        CliSubcommand::SaveConfig => (FrontendRequest::SaveConfiguration, None),
    }
}

/// The requests of a list.
pub open spec fn requests_view(s: Seq<FrontendRequest>) -> Seq<RequestView> {
    s.map_values(|r: FrontendRequest| r@)
}

/// A request, if there is something to ask for.
pub open spec fn asked(request: Option<RequestView>) -> Seq<RequestView> {
    match request {
        Some(r) => seq![r],
        None => seq![],
    }
}

/// The requests that configure a new client: one for everything that was
/// given.
pub open spec fn setup_requests(args: ClientArgs, handle: ClientHandle) -> Seq<RequestView> {
    asked(
        match args.hostname {
            Some(s) => Some(RequestView::UpdateHostname(handle, Some(s@))),
            None => None,
        },
    ) + asked(
        match args.peer_fingerprint {
            Some(s) => Some(RequestView::UpdatePeerFingerprint(handle, Some(s@))),
            None => None,
        },
    ) + asked(
        match args.port {
            Some(port) => Some(RequestView::UpdatePort(handle, port)),
            None => None,
        },
    ) + asked(
        match args.ips {
            Some(ips) => Some(RequestView::UpdateFixIps(handle, ips@)),
            None => None,
        },
    ) + asked(
        match args.enter_hook {
            Some(s) => Some(RequestView::UpdateEnterHook(handle, Some(s@))),
            None => None,
        },
    ) + asked(
        match args.leave_hook {
            Some(s) => Some(RequestView::UpdateLeaveHook(handle, Some(s@))),
            None => None,
        },
    )
}

fn ask(out: &mut Vec<FrontendRequest>, request: Option<FrontendRequest>)
    ensures
        requests_view(final(out)@) == requests_view(old(out)@) + asked(
            match request {
                Some(r) => Some(r@),
                None => None,
            },
        ),
{
    let ghost before = out@;
    match request {
        Some(r) => {
            let ghost v = r@;
            out.push(r);
            assert(requests_view(out@) =~= requests_view(before) + seq![v]);
        },
        None => {
            assert(requests_view(out@) =~= requests_view(before) + seq![]);
        },
    }
}

/// The requests that configure a new client.
pub fn set_up_client(args: ClientArgs, handle: ClientHandle) -> (r: Vec<FrontendRequest>)
    ensures
        requests_view(r@) == setup_requests(args, handle),
{
    let mut r: Vec<FrontendRequest> = Vec::new();
    let ClientArgs { hostname, peer_fingerprint, port, ips, enter_hook, leave_hook } = args;
    ask(
        &mut r,
        match hostname {
            Some(s) => Some(FrontendRequest::UpdateHostname(handle, Some(s))),
            None => None,
        },
    );
    ask(
        &mut r,
        match peer_fingerprint {
            Some(s) => Some(FrontendRequest::UpdatePeerFingerprint(handle, Some(s))),
            None => None,
        },
    );
    ask(
        &mut r,
        match port {
            Some(port) => Some(FrontendRequest::UpdatePort(handle, port)),
            None => None,
        },
    );
    ask(
        &mut r,
        match ips {
            Some(ips) => Some(FrontendRequest::UpdateFixIps(handle, ips)),
            None => None,
        },
    );
    ask(
        &mut r,
        match enter_hook {
            Some(s) => Some(FrontendRequest::UpdateEnterHook(handle, Some(s))),
            None => None,
        },
    );
    ask(
        &mut r,
        match leave_hook {
            Some(s) => Some(FrontendRequest::UpdateLeaveHook(handle, Some(s))),
            None => None,
        },
    );
    assert(requests_view(r@) =~= setup_requests(args, handle));
    r
}

/// The first client of the handle in a list.
pub open spec fn listed_client(clients: Seq<InfoView>, id: ClientHandle) -> Option<InfoView>
    decreases clients.len(),
{
    if clients.len() == 0 {
        None
    } else if clients[0].handle == id {
        Some(clients[0])
    } else {
        listed_client(clients.skip(1), id)
    }
}

/// The first client of the handle in a list.
pub fn current_config_for(clients: &Vec<ClientInfo>, id: ClientHandle) -> (r: Option<&ClientInfo>)
    ensures
        match r {
            Some(c) => listed_client(infos_view(clients@), id) == Some(c@),
            None => listed_client(infos_view(clients@), id) is None,
        },
{
    let ghost all = infos_view(clients@);
    let mut i: usize = 0;
    assert(all.skip(0) =~= all);
    while i < clients.len()
        invariant
            i <= clients@.len(),
            all == infos_view(clients@),
            listed_client(all, id) == listed_client(all.skip(i as int), id),
        decreases clients@.len() - i,
    {
        assert(all.skip(i as int)[0] == clients@[i as int]@);
        assert(all.skip(i as int).skip(1) =~= all.skip(i + 1));
        if clients[i].handle == id {
            return Some(&clients[i]);
        }
        i = i + 1;
    }
    None
}

/// What is done on an event of the service.
pub enum CliStep {
    /// Wait for another event.
    Wait(Pending),
    /// Send these requests, and be done.
    Send(Vec<FrontendRequest>),
    /// Print these clients, and be done.
    List(Vec<ClientInfo>),
}

/// The action that is added to those that a client has.
pub open spec fn appended(
    config: ConfigView,
    on: ActionTrigger,
    monitor: Option<Seq<char>>,
    code: u8,
    value: u32,
) -> Seq<ActionView> {
    config.actions.push(ActionView { on, monitor, code, value })
}

/// Handles an event of the service. Events that do not answer the request are
/// passed over. A client to which an action is to be added and that does not
/// exist is passed over too.
pub fn handle_event(pending: Pending, event: FrontendEvent) -> (step: CliStep)
    ensures
        match (pending, event) {
            (Pending::NewClient(args), FrontendEvent::Created(info)) => step matches CliStep::Send(
                r,
            ) && requests_view(r@) == setup_requests(args, info.handle),
            (Pending::Listing, FrontendEvent::Enumerate(clients)) => step == CliStep::List(clients),
            (
                Pending::AddAction { id, on, monitor, code, value },
                FrontendEvent::Enumerate(clients),
            ) => step matches CliStep::Send(r) && requests_view(r@) == match listed_client(
                infos_view(clients@),
                id,
            ) {
                Some(c) => seq![
                    RequestView::UpdateActions(
                        id,
                        appended(c.config, on, opt_text(monitor), code, value),
                    ),
                ],
                None => seq![],
            },
            _ => step == CliStep::Wait(pending),
        },
{
    match (pending, event) {
        (Pending::NewClient(args), FrontendEvent::Created(info)) => CliStep::Send(
            set_up_client(args, info.handle),
        ),
        (Pending::Listing, FrontendEvent::Enumerate(clients)) => CliStep::List(clients),
        (
            Pending::AddAction { id, on, monitor, code, value },
            FrontendEvent::Enumerate(clients),
        ) => {
            let mut r: Vec<FrontendRequest> = Vec::new();
            match current_config_for(&clients, id) {
                Some(c) => {
                    let mut actions = copy_actions(&c.config.actions);
                    let ghost before = actions@;
                    let action = ClientAction::DdcVcp { on, monitor, code, value };
                    let ghost a = action@;
                    actions.push(action);
                    assert(actions_view(actions@) =~= actions_view(before).push(a));
                    r.push(FrontendRequest::UpdateActions(id, actions));
                    assert(requests_view(r@) =~= seq![
                        RequestView::UpdateActions(
                            id,
                            appended(c@.config, on, opt_text(monitor), code, value),
                        ),
                    ]);
                },
                None => {
                    assert(requests_view(r@) =~= Seq::<RequestView>::empty());
                },
            }
            CliStep::Send(r)
        },
        (pending, _) => CliStep::Wait(pending),
    }
}

/// What is printed of an action.
pub open spec fn action_text(a: ActionView) -> Seq<char> {
    "DdcVcp { on: "@ + match a.on {
        ActionTrigger::Enter => "Enter"@,
        ActionTrigger::Leave => "Leave"@,
    } + ", monitor: "@ + quoted_option(a.monitor) + ", code: "@ + decimal(a.code as nat)
        + ", value: "@ + decimal(a.value as nat) + " }"@
}

/// What is printed of an action.
fn action_text_of(action: &ClientAction) -> (s: String)
    ensures
        s@ == action_text(action@),
{
    let ClientAction::DdcVcp { on, monitor, code, value } = action;
    let mut s = String::from_str("DdcVcp { on: ");
    s.append(
        match on {
            ActionTrigger::Enter => "Enter",
            ActionTrigger::Leave => "Leave",
        },
    );
    s.append(", monitor: ");
    s.append(quote_option(monitor).as_str());
    s.append(", code: ");
    s.append(decimal_of(*code as u64).as_str());
    s.append(", value: ");
    s.append(decimal_of(*value as u64).as_str());
    s.append(" }");
    s
}

/// What is printed of all actions.
fn action_texts_of(actions: &Vec<ClientAction>) -> (r: Vec<String>)
    ensures
        texts(r@) == actions_view(actions@).map_values(|a: ActionView| action_text(a)),
{
    let mut r: Vec<String> = Vec::new();
    let mut i: usize = 0;
    while i < actions.len()
        invariant
            i <= actions@.len(),
            r@.len() == i,
            forall|j: int| 0 <= j < i ==> (#[trigger] r@[j])@ == action_text(actions@[j]@),
        decreases actions@.len() - i,
    {
        r.push(action_text_of(&actions[i]));
        i = i + 1;
    }
    assert(texts(r@) =~= actions_view(actions@).map_values(|a: ActionView| action_text(a)));
    r
}

/// A part of a line that is there only if there is something to tell.
pub open spec fn optional_part(prefix: Seq<char>, text: Option<Seq<char>>) -> Seq<char> {
    match text {
        Some(t) => prefix + t,
        None => seq![],
    }
}

/// The text of an optional string in quotes.
pub open spec fn in_quotes(text: Option<Seq<char>>) -> Option<Seq<char>> {
    match text {
        Some(t) => Some(quoted(t)),
        None => None,
    }
}

/// `true` or `false`.
pub open spec fn truth_text(b: bool) -> Seq<char> {
    if b {
        "true"@
    } else {
        "false"@
    }
}

/// What is printed of how a client is doing: whether it answers, whether its
/// host's name is being resolved, where it is connected, and its build.
pub open spec fn state_part(s: StateView) -> Seq<char> {
    ", alive: "@ + truth_text(s.alive) + ", resolving: "@ + truth_text(s.resolving)
        + optional_part(
        ", active_addr: "@,
        match s.active_addr {
            Some(addr) => Some(addr.text()),
            None => None,
        },
    ) + optional_part(
        ", peer_commit: "@,
        match s.peer_commit {
            Some(commit) => Some(commit_text(commit@)),
            None => None,
        },
    )
}

/// The line that is printed of a client.
pub open spec fn client_line(c: InfoView) -> Seq<char> {
    "id "@ + decimal(c.handle as nat) + ": "@ + (match c.config.hostname {
        Some(host) => host,
        None => "unknown"@,
    }) + ":"@ + decimal(c.config.port as nat) + " ("@ + c.config.pos.text() + ") active: "@ + truth_text(
        c.state.active,
    ) + ", ips: {"@ + separated(
        ip_texts(listed_ascending(c.state.ips)),
        ", "@,
    ) + "}"@ + state_part(c.state) + optional_part(
        ", peer_fingerprint: "@,
        c.config.peer_fingerprint,
    ) + optional_part(", enter_hook: "@, in_quotes(c.config.cmd)) + optional_part(
        ", leave_hook: "@,
        in_quotes(c.config.cmd_leave),
    ) + (if c.config.actions.len() == 0 {
        seq![]
    } else {
        ", actions: ["@ + separated(
            c.config.actions.map_values(|a: ActionView| action_text(a)),
            ", "@,
        ) + "]"@
    })
}

fn append_optional(s: &mut String, prefix: &str, text: &Option<String>)
    ensures
        final(s)@ == old(s)@ + optional_part(prefix@, opt_text(*text)),
{
    match text {
        Some(t) => {
            s.append(prefix);
            s.append(t.as_str());
        },
        None => {},
    }
    assert(s@ =~= old(s)@ + optional_part(prefix@, opt_text(*text)));
}

fn quote_some(text: &Option<String>) -> (r: Option<String>)
    ensures
        opt_text(r) == in_quotes(opt_text(*text)),
{
    match text {
        Some(t) => Some(quote(t.as_str())),
        None => None,
    }
}

fn truth_of(b: bool) -> (s: &'static str)
    ensures
        s@ == truth_text(b),
{
    if b {
        "true"
    } else {
        "false"
    }
}

/// What is printed of how a client is doing.
fn state_part_of(state: &ClientState) -> (s: String)
    ensures
        s@ == state_part(state@),
{
    let mut s = String::from_str(", alive: ");
    s.append(truth_of(state.alive));
    s.append(", resolving: ");
    s.append(truth_of(state.resolving));
    let addr = match state.active_addr {
        Some(addr) => Some(addr.to_text()),
        None => None,
    };
    let commit = match &state.peer_commit {
        Some(commit) => Some(commit_text_of(commit)),
        None => None,
    };
    append_optional(&mut s, ", active_addr: ", &addr);
    append_optional(&mut s, ", peer_commit: ", &commit);
    s
}

/// The line that is printed of a client.
pub fn list_line(c: &ClientInfo) -> (s: String)
    requires
        c.state.ips.wf(),
    ensures
        s@ == client_line(c@),
{
    proof {
        lemma_listed(c.state.ips.ips@);
    }
    let mut s = String::from_str("id ");
    s.append(decimal_of(c.handle).as_str());
    s.append(": ");
    match &c.config.hostname {
        Some(host) => s.append(host.as_str()),
        None => s.append("unknown"),
    }
    s.append(":");
    s.append(decimal_of(c.config.port as u64).as_str());
    s.append(" (");
    s.append(c.config.pos.as_str());
    s.append(") active: ");
    s.append(truth_of(c.state.active));
    s.append(", ips: {");
    s.append(join(&ip_texts_of(&c.state.ips.ips), ", ").as_str());
    s.append("}");
    s.append(state_part_of(&c.state).as_str());
    append_optional(&mut s, ", peer_fingerprint: ", &c.config.peer_fingerprint);
    append_optional(&mut s, ", enter_hook: ", &quote_some(&c.config.cmd));
    append_optional(&mut s, ", leave_hook: ", &quote_some(&c.config.cmd_leave));
    let ghost front = s@;
    if c.config.actions.len() > 0 {
        s.append(", actions: [");
        s.append(join(&action_texts_of(&c.config.actions), ", ").as_str());
        s.append("]");
        assert(s@ =~= front + (", actions: ["@ + separated(
            c@.config.actions.map_values(|a: ActionView| action_text(a)),
            ", "@,
        ) + "]"@));
    } else {
        assert(s@ =~= front + Seq::<char>::empty());
    }
    assert(s@ =~= client_line(c@));
    s
}

/// The service once it has served the requests, one after the other.
#[verifier::opaque]
pub open spec fn served(s: ServiceView, requests: Seq<RequestView>) -> ServiceView
    decreases requests.len(),
{
    if requests.len() == 0 {
        s
    } else {
        served(s, requests.drop_last()).requested(requests.last()).service
    }
}

#[verifier::spinoff_prover]
#[verifier::rlimit(40)]
proof fn lemma_served(s: ServiceView, a: Seq<RequestView>, b: Seq<RequestView>)
    ensures
        served(s, a + b) == served(served(s, a), b),
    decreases b.len(),
{
    reveal(served);
    if b.len() == 0 {
        assert(a + b =~= a);
    } else {
        lemma_served(s, a, b.drop_last());
        assert((a + b).drop_last() =~= a + b.drop_last());
        assert((a + b).last() == b.last());
    }
}

proof fn lemma_served_asked(s: ServiceView, request: Option<RequestView>)
    ensures
        served(s, asked(request)) == match request {
            Some(r) => s.requested(r).service,
            None => s,
        },
{
    reveal(served);
    match request {
        Some(r) => {
            assert(seq![r].drop_last() =~= Seq::<RequestView>::empty());
            assert(served(s, seq![r].drop_last()) == s);
        },
        None => {},
    }
}

/// The configuration that a new client is asked to have: what was given, and
/// else what it has.
pub open spec fn configured(config: ConfigView, args: ClientArgs) -> ConfigView {
    ConfigView {
        hostname: match args.hostname {
            Some(s) => Some(s@),
            None => config.hostname,
        },
        peer_fingerprint: match args.peer_fingerprint {
            Some(s) => nonempty_fingerprint(Some(s@)),
            None => config.peer_fingerprint,
        },
        port: match args.port {
            Some(port) => port,
            None => config.port,
        },
        fix_ips: match args.ips {
            Some(ips) => ips@,
            None => config.fix_ips,
        },
        cmd: match args.enter_hook {
            Some(s) => Some(s@),
            None => config.cmd,
        },
        cmd_leave: match args.leave_hook {
            Some(s) => Some(s@),
            None => config.cmd_leave,
        },
        ..config
    }
}

/// Whether one client is configured so, and nothing else has changed of it
/// and of the other clients.
pub open spec fn only_configured(
    s: ServiceView,
    t: ServiceView,
    handle: ClientHandle,
    config: ConfigView,
) -> bool {
    &&& t.clients.has(handle)
    &&& t.clients.clients[handle].config == config
    &&& t.clients.clients[handle].state.active == s.clients.clients[handle].state.active
    &&& forall|h: u64|
        h != handle && #[trigger] s.clients.has(h) ==> t.clients.has(h) && t.clients.clients[h]
            == s.clients.clients[h]
}

proof fn lemma_one_update(
    s: ServiceView,
    handle: ClientHandle,
    request: Option<RequestView>,
    config: ConfigView,
)
    requires
        s.clients.has(handle),
        ({
            let c = s.clients.clients[handle].config;
            match request {
                None => config == c,
                Some(RequestView::UpdateHostname(h, hostname)) => h == handle && config
                    == ConfigView { hostname, ..c },
                Some(RequestView::UpdatePeerFingerprint(h, fp)) => h == handle && config
                    == ConfigView { peer_fingerprint: nonempty_fingerprint(fp), ..c },
                Some(RequestView::UpdatePort(h, port)) => h == handle && config == ConfigView {
                    port,
                    ..c
                },
                Some(RequestView::UpdateFixIps(h, fix_ips)) => h == handle && config
                    == ConfigView { fix_ips, ..c },
                Some(RequestView::UpdateEnterHook(h, cmd)) => h == handle && config
                    == ConfigView { cmd, ..c },
                Some(RequestView::UpdateLeaveHook(h, cmd_leave)) => h == handle && config
                    == ConfigView { cmd_leave, ..c },
                _ => false,
            }
        }),
    ensures
        only_configured(s, served(s, asked(request)), handle, config),
{
    lemma_served_asked(s, request);
}

proof fn lemma_two_updates(
    s: ServiceView,
    t: ServiceView,
    u: ServiceView,
    handle: ClientHandle,
    a: ConfigView,
    b: ConfigView,
)
    requires
        only_configured(s, t, handle, a),
        only_configured(t, u, handle, b),
    ensures
        only_configured(s, u, handle, b),
{
    assert forall|h: u64| h != handle && #[trigger] s.clients.has(h) implies u.clients.has(h)
        && u.clients.clients[h] == s.clients.clients[h] by {
        assert(t.clients.has(h));
    }
}

/// The requests that follow the creation of a client give it what was asked
/// for, and change no other client.
pub proof fn new_client_is_configured(s: ServiceView, args: ClientArgs, handle: ClientHandle)
    requires
        s.clients.has(handle),
    ensures
        only_configured(
            s,
            served(s, setup_requests(args, handle)),
            handle,
            configured(s.clients.clients[handle].config, args),
        ),
{
    let r1: Option<RequestView> = match args.hostname {
        Some(x) => Some(RequestView::UpdateHostname(handle, Some(x@))),
        None => None,
    };
    let r2: Option<RequestView> = match args.peer_fingerprint {
        Some(x) => Some(RequestView::UpdatePeerFingerprint(handle, Some(x@))),
        None => None,
    };
    let r3: Option<RequestView> = match args.port {
        Some(port) => Some(RequestView::UpdatePort(handle, port)),
        None => None,
    };
    let r4: Option<RequestView> = match args.ips {
        Some(ips) => Some(RequestView::UpdateFixIps(handle, ips@)),
        None => None,
    };
    let r5: Option<RequestView> = match args.enter_hook {
        Some(x) => Some(RequestView::UpdateEnterHook(handle, Some(x@))),
        None => None,
    };
    let r6: Option<RequestView> = match args.leave_hook {
        Some(x) => Some(RequestView::UpdateLeaveHook(handle, Some(x@))),
        None => None,
    };
    let (a1, a2, a3) = (asked(r1), asked(r2), asked(r3));
    let (a4, a5, a6) = (asked(r4), asked(r5), asked(r6));
    lemma_served(s, a1 + a2 + a3 + a4 + a5, a6);
    lemma_served(s, a1 + a2 + a3 + a4, a5);
    lemma_served(s, a1 + a2 + a3, a4);
    lemma_served(s, a1 + a2, a3);
    lemma_served(s, a1, a2);
    let c0 = s.clients.clients[handle].config;
    let all = configured(c0, args);
    let c1 = ConfigView { hostname: all.hostname, ..c0 };
    let c2 = ConfigView { peer_fingerprint: all.peer_fingerprint, ..c1 };
    let c3 = ConfigView { port: all.port, ..c2 };
    let c4 = ConfigView { fix_ips: all.fix_ips, ..c3 };
    let c5 = ConfigView { cmd: all.cmd, ..c4 };
    let c6 = ConfigView { cmd_leave: all.cmd_leave, ..c5 };
    assert(c6 == all);
    let s1 = served(s, a1);
    lemma_one_update(s, handle, r1, c1);
    let s2 = served(s1, a2);
    lemma_one_update(s1, handle, r2, c2);
    lemma_two_updates(s, s1, s2, handle, c1, c2);
    let s3 = served(s2, a3);
    lemma_one_update(s2, handle, r3, c3);
    lemma_two_updates(s, s2, s3, handle, c2, c3);
    let s4 = served(s3, a4);
    lemma_one_update(s3, handle, r4, c4);
    lemma_two_updates(s, s3, s4, handle, c3, c4);
    let s5 = served(s4, a5);
    lemma_one_update(s4, handle, r5, c5);
    lemma_two_updates(s, s4, s5, handle, c4, c5);
    let s6 = served(s5, a6);
    lemma_one_update(s5, handle, r6, c6);
    lemma_two_updates(s, s5, s6, handle, c5, c6);
}

/// Adding an action keeps the actions that a client has, and puts the new one
/// behind them.
pub proof fn added_action_comes_last(
    s: ServiceView,
    handle: ClientHandle,
    on: ActionTrigger,
    monitor: Option<Seq<char>>,
    code: u8,
    value: u32,
)
    requires
        s.clients.has(handle),
    ensures
        ({
            let config = s.clients.clients[handle].config;
            let t = s.requested(
                RequestView::UpdateActions(handle, appended(config, on, monitor, code, value)),
            ).service;
            t.clients.clients[handle].config == ConfigView {
                actions: config.actions.push(ActionView { on, monitor, code, value }),
                ..config
            }
        }),
{
}

/// A command that sets something of a client sets just that: once the service
/// has served its request, the client has the name, the key, the command for
/// entering, the command for leaving, the port, the side or the addresses that
/// were given, and no actions if they were cleared.
#[verifier::rlimit(40)]
pub proof fn commands_configure_the_client(
    s: ServiceView,
    cmd: CliSubcommand,
    id: ClientHandle,
)
    requires
        s.clients.has(id),
    ensures
        ({
            let was = s.clients.clients[id].config;
            let t = s.requested(first_request(cmd)).service;
            let c = t.clients.clients[id].config;
            match cmd {
                CliSubcommand::SetHost { id: i, host } => i == id ==> c == (ConfigView {
                    hostname: match host {
                        Some(h) => Some(h@),
                        None => None,
                    },
                    ..was
                }),
                CliSubcommand::SetPeerFingerprint { id: i, fingerprint } => i == id ==> c == (
                ConfigView {
                    peer_fingerprint: match fingerprint {
                        Some(fp) => nonempty_fingerprint(Some(fp@)),
                        None => None,
                    },
                    ..was
                }),
                CliSubcommand::SetEnterHook { id: i, hook } => i == id ==> c == (ConfigView {
                    cmd: match hook {
                        Some(h) => Some(h@),
                        None => None,
                    },
                    ..was
                }),
                CliSubcommand::SetLeaveHook { id: i, hook } => i == id ==> c == (ConfigView {
                    cmd_leave: match hook {
                        Some(h) => Some(h@),
                        None => None,
                    },
                    ..was
                }),
                CliSubcommand::ClearActions { id: i } => i == id ==> c == (ConfigView {
                    actions: seq![],
                    ..was
                }),
                CliSubcommand::SetPort { id: i, port } => i == id ==> c == (ConfigView {
                    port,
                    ..was
                }),
                CliSubcommand::SetPosition { id: i, pos } => i == id ==> c == (ConfigView {
                    pos,
                    ..was
                }),
                CliSubcommand::SetIps { id: i, ips } => i == id ==> c == (ConfigView {
                    fix_ips: ips@,
                    ..was
                }),
                CliSubcommand::RemoveClient { id: i } => i == id ==> !t.clients.has(id),
                CliSubcommand::Activate { id: i } => i == id ==> t.is_active(id) && c == was,
                CliSubcommand::Deactivate { id: i } => i == id ==> !t.is_active(id) && c == was,
                _ => true,
            }
        }),
{
    let was = s.clients.clients[id].config;
    let t = s.requested(first_request(cmd)).service;
    match cmd {
        CliSubcommand::SetPosition { id: i, pos } => {
            if i == id {
                assert(t.clients.clients[id].config =~= ConfigView { pos, ..was });
            }
        },
        _ => {},
    }
}

/// The commands about the service as a whole ask for what they name: keys come
/// under the description that was given and go again, and capture, emulation and
/// the file are asked for each by its own command.
#[verifier::rlimit(40)]
pub proof fn commands_ask_the_service(s: ServiceView, cmd: CliSubcommand)
    ensures
        match cmd {
            CliSubcommand::AuthorizeKey { description, sha256_fingerprint } => {
                let t = s.requested(first_request(cmd)).service;
                t.authorized.dom().contains(sha256_fingerprint@)
                    && t.authorized[sha256_fingerprint@] == description@
            },
            CliSubcommand::RemoveAuthorizedKey { sha256_fingerprint } => !s.requested(
                first_request(cmd),
            ).service.authorized.dom().contains(sha256_fingerprint@),
            CliSubcommand::EnableCapture => s.requested(first_request(cmd)).effects == seq![
                crate::service::EffectView::CaptureReenable,
            ],
            CliSubcommand::EnableEmulation => s.requested(first_request(cmd)).effects == seq![
                crate::service::EffectView::EmulationReenable,
            ],
            CliSubcommand::SaveConfig => s.requested(first_request(cmd)).effects.last()
                is WriteConfig && s.requested(first_request(cmd)).service.clients == s.clients,
            CliSubcommand::AddClient(_) => s.requested(first_request(cmd)).service.clients.has(
                s.clients.next,
            ),
            _ => true,
        },
{
}

/// Only what has to wait for an answer is not over with its first request: a new
/// client is then configured as asked, the clients are listed, and an action is
/// added with the moment, the monitor, the code and the value that were given.
pub proof fn what_is_left_of_a_command(cmd: CliSubcommand)
    ensures
        left_of(cmd) is Some <==> cmd is AddClient || cmd is List || cmd is AddDdcVcpAction,
        cmd matches CliSubcommand::AddClient(args) ==> left_of(cmd) == Some(
            Pending::NewClient(args),
        ),
        cmd is List ==> left_of(cmd) == Some(Pending::Listing),
        cmd matches CliSubcommand::AddDdcVcpAction { id, on, monitor, code, value } ==> left_of(cmd)
            == Some(
            Pending::AddAction {
                id,
                on: if on is Enter {
                    ActionTrigger::Enter
                } else {
                    ActionTrigger::Leave
                },
                monitor,
                code,
                value,
            },
        ),
{
}

/// The client of a handle in a list is the first that has it.
pub proof fn listed_client_is_the_first(clients: Seq<InfoView>, id: ClientHandle, i: int)
    requires
        0 <= i < clients.len(),
        clients[i].handle == id,
        forall|j: int| 0 <= j < i ==> (#[trigger] clients[j]).handle != id,
    ensures
        listed_client(clients, id) == Some(clients[i]),
    decreases clients.len(),
{
    if i > 0 {
        assert(clients[0].handle != id);
        let rest = clients.skip(1);
        assert forall|j: int| 0 <= j < i - 1 implies (#[trigger] rest[j]).handle != id by {
            assert(rest[j] == clients[j + 1]);
        }
        listed_client_is_the_first(rest, id, i - 1);
    }
}

/// An added action is the given one, and comes behind those that were there.
pub proof fn appended_action_is_the_given_one(
    config: ConfigView,
    on: ActionTrigger,
    monitor: Option<Seq<char>>,
    code: u8,
    value: u32,
)
    ensures
        ({
            let all = appended(config, on, monitor, code, value);
            &&& all.len() == config.actions.len() + 1
            &&& all.drop_last() == config.actions
            &&& all.last().on == on
            &&& all.last().monitor == monitor
            &&& all.last().code == code
            &&& all.last().value == value
        }),
{
    assert(appended(config, on, monitor, code, value).drop_last() =~= config.actions);
}

/// Hexadecimal arguments are read behind `0x` and behind `0X`: the number that
/// the digits write, if it has 32 bits.
pub proof fn hexadecimal_arguments_are_read(n: u32)
    ensures
        auto_number("0x"@ + crate::net::hexadecimal(n as nat)) == Ok::<int, ParseNumberError>(
            n as int,
        ),
        auto_number("0X"@ + crate::net::hexadecimal(n as nat)) == Ok::<int, ParseNumberError>(
            n as int,
        ),
{
    let h = crate::net::hexadecimal(n as nat);
    crate::net::hexadecimal_is_read_back(n as nat);
    reveal_strlit("0x");
    reveal_strlit("0X");
    lemma_hexadecimal_argument("0x"@, h, n as int);
    lemma_hexadecimal_argument("0X"@, h, n as int);
}

proof fn lemma_hexadecimal_argument(prefix: Seq<char>, h: Seq<char>, n: int)
    requires
        prefix == "0x"@ || prefix == "0X"@,
        crate::text::all_digits(h, 16),
        h.len() > 0,
        crate::text::number_of(h, 16) == n,
        0 <= n <= u32::MAX,
    ensures
        auto_number(prefix + h) == Ok::<int, ParseNumberError>(n),
{
    reveal_strlit("0x");
    reveal_strlit("0X");
    let s = prefix + h;
    assert(s.first() == '0');
    assert(s.last() == h[h.len() - 1]);
    assert(crate::text::digit_value(h[h.len() - 1], 16) is Some);
    crate::text::trimmed_text_stays(s);
    assert(s.take(2) =~= prefix);
    assert(s.skip(2) =~= h);
    assert(crate::text::digit_value(h[0], 16) is Some);
    crate::text::parsed_numbers(h, 16, u32::MAX as int);
}

/// The line of a client starts with its number, its name and its port, and names
/// each of its commands by its moment.
#[verifier::rlimit(40)]
pub proof fn client_line_tells_the_hooks(c: InfoView)
    ensures
        ({
            let head = "id "@ + decimal(c.handle as nat) + ": "@ + (match c.config.hostname {
                Some(host) => host,
                None => "unknown"@,
            }) + ":"@ + decimal(c.config.port as nat) + " ("@;
            has_prefix(client_line(c), head)
        }),
        c.config.cmd matches Some(cmd) ==> crate::text::occurs_in(
            client_line(c),
            ", enter_hook: "@ + quoted(cmd),
        ),
        c.config.cmd_leave matches Some(cmd) ==> crate::text::occurs_in(
            client_line(c),
            ", leave_hook: "@ + quoted(cmd),
        ),
{
    let head = "id "@ + decimal(c.handle as nat) + ": "@ + (match c.config.hostname {
        Some(host) => host,
        None => "unknown"@,
    }) + ":"@ + decimal(c.config.port as nat) + " ("@;
    let before = head + c.config.pos.text() + ") active: "@ + truth_text(c.state.active)
        + ", ips: {"@ + separated(ip_texts(listed_ascending(c.state.ips)), ", "@) + "}"@
        + state_part(c.state) + optional_part(", peer_fingerprint: "@, c.config.peer_fingerprint);
    let enter = optional_part(", enter_hook: "@, in_quotes(c.config.cmd));
    let leave = optional_part(", leave_hook: "@, in_quotes(c.config.cmd_leave));
    let actions: Seq<char> = if c.config.actions.len() == 0 {
        seq![]
    } else {
        ", actions: ["@ + separated(
            c.config.actions.map_values(|a: ActionView| action_text(a)),
            ", "@,
        ) + "]"@
    };
    assert(client_line(c) =~= before + enter + leave + actions);
    let line = client_line(c);
    assert(line.take(head.len() as int) =~= head);
    assert(line.subrange(before.len() as int, (before.len() + enter.len()) as int) =~= enter);
    assert(line.subrange(
        (before.len() + enter.len()) as int,
        (before.len() + enter.len() + leave.len()) as int,
    ) =~= leave);
    if c.config.cmd is Some {
        assert(crate::text::occurs_at(line, enter, before.len() as int));
    }
    if c.config.cmd_leave is Some {
        assert(crate::text::occurs_at(line, leave, (before.len() + enter.len()) as int));
    }
}

} // verus!
