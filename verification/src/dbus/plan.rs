//! Which buses a configuration grants and the proxy's rules for each.

use vstd::prelude::*;

use crate::config::model::{
    rule_views, service_views, BusRule, BusRuleView, Service, ServiceView,
};
use crate::dbus::identity::{app_id, flatpak_info, identity_text, instance_app_id};
use crate::text::{bytes_of, joined, maybe, same_bytes, utf8};

verus! {

/// Program that filters the buses; found on `PATH` inside the proxy sandbox.
/// One process serves every bus an instance is granted.
pub const PROXY_BIN: &'static str = "xdg-dbus-proxy";

/// File name of the session bus socket, in the proxy's directory and in the
/// instance's after the launcher moves it.
pub const SESSION_SOCKET: &'static str = "bus";

/// File name of the system bus socket, in the same two directories.
pub const SYSTEM_SOCKET: &'static str = "system";

/// Config node that grants the session bus, for errors about its socket.
pub const SESSION_NODE: &'static str = "dbus";

/// Config node that grants the system bus, for errors about its socket.
pub const SYSTEM_NODE: &'static str = "system-bus";

/// File name of the accessibility bus socket, in the same two directories.
pub const A11Y_SOCKET: &'static str = "a11y";

/// Config node that grants the accessibility bus, for errors about its
/// socket.
pub const A11Y_NODE: &'static str = "a11y";

/// Rules the `portals` bundle grants: the three portal services a sandboxed
/// app talks to, plus the `--call`/`--broadcast` pair from the
/// `xdg-dbus-proxy(1)` EXAMPLES section. Not the spawn portal, which starts
/// processes outside the sandbox.
pub const PORTAL_RULES: [&'static str; 5] = [
    "--talk=org.freedesktop.portal.Desktop",
    "--talk=org.freedesktop.portal.Documents",
    "--talk=org.freedesktop.portal.FileChooser",
    "--call=org.freedesktop.portal.*=*",
    "--broadcast=org.freedesktop.portal.*=@/org/freedesktop/portal/*",
];

/// Rules the `input-method` grant gets: both portal names, whichever daemon
/// the session runs. Not the daemons' own names, which can reconfigure the
/// daemon for the whole session.
pub const INPUT_METHOD_RULES: [&'static str; 2] = [
    "--talk=org.freedesktop.portal.Fcitx",
    "--talk=org.freedesktop.portal.IBus",
];

/// Rules the `a11y` grant gets on the accessibility bus, which is the whole
/// of what a sandboxed client may ask that bus for: registering the
/// application with the AT-SPI registry, and reading back what is registered
/// so a toolkit knows whether to emit its events.
///
/// `RegisterKeystrokeListener`, `GenerateKeyboardEvent`, `GenerateMouseEvent`
/// and `RegisterEvent` are deliberately absent: they are every keystroke of
/// every accessible application and input injected into the session.
pub const A11Y_RULES: [&'static str; 9] = [
    "--call=org.a11y.atspi.Registry=org.a11y.atspi.Socket.Embed@/org/a11y/atspi/accessible/root",
    "--call=org.a11y.atspi.Registry=org.a11y.atspi.Socket.Unembed@/org/a11y/atspi/accessible/root",
    "--call=org.a11y.atspi.Registry=org.a11y.atspi.Registry.GetRegisteredEvents@/org/a11y/atspi/registry",
    "--call=org.a11y.atspi.Registry=org.a11y.atspi.DeviceEventController.GetKeystrokeListeners@/org/a11y/atspi/registry/deviceeventcontroller",
    "--call=org.a11y.atspi.Registry=org.a11y.atspi.DeviceEventController.GetDeviceEventListeners@/org/a11y/atspi/registry/deviceeventcontroller",
    "--call=org.a11y.atspi.Registry=org.a11y.atspi.DeviceEventController.NotifyListenersSync@/org/a11y/atspi/registry/deviceeventcontroller",
    "--call=org.a11y.atspi.Registry=org.a11y.atspi.DeviceEventController.NotifyListenersAsync@/org/a11y/atspi/registry/deviceeventcontroller",
    "--broadcast=org.a11y.atspi.Registry=org.a11y.atspi.Registry.EventListenerRegistered@/org/a11y/atspi/registry",
    "--broadcast=org.a11y.atspi.Registry=org.a11y.atspi.Registry.EventListenerDeregistered@/org/a11y/atspi/registry",
];

/// One policy argument with the node that asked for it.
#[derive(Debug, Clone, PartialEq, Eq)]
pub struct Rule {
    /// The argument as `xdg-dbus-proxy` takes it, e.g. `--talk=org.a.B`.
    pub arg: Vec<u8>,
    /// Position in the instance config's `services` of the node that
    /// contributed it: the bus node for its own rules, the bundle's node for
    /// a bundle's. A repeat keeps the first node that asked.
    pub node: usize,
}

/// Model of a [`Rule`].
pub struct RuleView {
    pub arg: Seq<u8>,
    pub node: nat,
}

impl View for Rule {
    type V = RuleView;

    open spec fn view(&self) -> RuleView {
        RuleView { arg: self.arg@, node: self.node as nat }
    }
}

/// The models of a list of rules.
pub open spec fn policy_views(rules: Seq<Rule>) -> Seq<RuleView> {
    Seq::new(rules.len(), |i: int| rules[i]@)
}

/// One bus the proxy filters.
#[derive(Debug, Clone, PartialEq, Eq)]
pub struct Section {
    /// Position in the instance config's `services` of the node that granted
    /// this bus. The address, the socket and the options that apply to them
    /// are that node's, as its rules are.
    pub node: usize,
    /// `xdg-dbus-proxy` policy arguments for this bus, deduplicated, explicit
    /// rules first and bundles after them.
    pub rules: Vec<Rule>,
}

/// Model of a [`Section`].
pub struct SectionView {
    pub node: nat,
    pub rules: Seq<RuleView>,
}

impl View for Section {
    type V = SectionView;

    open spec fn view(&self) -> SectionView {
        SectionView { node: self.node as nat, rules: policy_views(self.rules@) }
    }
}

/// Everything the launcher needs to run one instance's proxy. One process
/// serves every granted bus (`xdg-dbus-proxy(1)`: options apply to the
/// address they follow), so a plan exists as soon as one is granted.
#[derive(Debug, Clone, PartialEq, Eq)]
pub struct Plan {
    /// The session bus, when `dbus` is granted.
    pub session: Option<Section>,
    /// The system bus, when `system-bus` is granted.
    pub system: Option<Section>,
    /// The session's accessibility bus, when `a11y` is granted. Its rules are
    /// [`A11Y_RULES`], never the config's: the node takes no children and the
    /// bus has no other safe subset.
    pub a11y: Option<Section>,
    /// Contents of `/.flatpak-info` for the proxy, and for the sandbox itself
    /// when `portals` is granted.
    pub flatpak_info: Vec<u8>,
    /// Whether the `portals` bundle was granted.
    pub portals: bool,
    /// `org.bubbler.<instance>`: the id portals file this sandbox's
    /// permissions and documents under.
    pub app_id: String,
}

/// Model of a [`Plan`].
pub struct PlanView {
    pub session: Option<SectionView>,
    pub system: Option<SectionView>,
    pub a11y: Option<SectionView>,
    pub flatpak_info: Seq<u8>,
    pub portals: bool,
    pub app_id: Seq<char>,
}

impl View for Plan {
    type V = PlanView;

    open spec fn view(&self) -> PlanView {
        PlanView {
            session: maybe(self.session),
            system: maybe(self.system),
            a11y: maybe(self.a11y),
            flatpak_info: self.flatpak_info@,
            portals: self.portals,
            app_id: self.app_id@,
        }
    }
}

/// One policy argument in the glued `--talk=<name>` form. A name may start
/// with `-`, which a separated `--talk <name>` would turn into an option of
/// its own.
pub open spec fn rendered(rule: BusRuleView) -> Seq<char> {
    match rule {
        BusRuleView::See(n) => "--see="@ + n,
        BusRuleView::Talk(n) => "--talk="@ + n,
        BusRuleView::Own(n) => "--own="@ + n,
        BusRuleView::Call(n, r) => "--call="@ + n + "="@ + r,
        BusRuleView::Broadcast(n, r) => "--broadcast="@ + n + "="@ + r,
    }
}

/// One policy argument in the glued `--talk=<name>` form.
pub fn render(rule: &BusRule) -> (r: String)
    ensures
        r@ == rendered(rule@),
{
    match rule {
        BusRule::See(n) => joined("--see=", n),
        BusRule::Talk(n) => joined("--talk=", n),
        BusRule::Own(n) => joined("--own=", n),
        BusRule::Call(n, r) => joined(&joined(&joined("--call=", n), "="), r),
        BusRule::Broadcast(n, r) => joined(&joined(&joined("--broadcast=", n), "="), r),
    }
}

/// Whether an argument is among some rules.
pub open spec fn has_rule(rules: Seq<RuleView>, arg: Seq<u8>) -> bool {
    exists|i: int| 0 <= i < rules.len() && (#[trigger] rules[i]).arg == arg
}

/// The rules with one more, unless it is already there: the proxy takes
/// repeats, but a deduplicated list is what the user can compare against the
/// config.
pub open spec fn added(rules: Seq<RuleView>, arg: Seq<u8>, node: nat) -> Seq<RuleView> {
    if has_rule(rules, arg) {
        rules
    } else {
        rules.push(RuleView { arg, node })
    }
}

/// The rules with the first `n` of some arguments added.
pub open spec fn all_added(rules: Seq<RuleView>, args: Seq<Seq<u8>>, n: int, node: nat) -> Seq<
    RuleView,
>
    decreases n,
{
    if n <= 0 {
        rules
    } else {
        added(all_added(rules, args, n - 1, node), args[n - 1], node)
    }
}

/// The arguments of a bus node's own rules.
pub open spec fn explicit_args(rules: Seq<BusRuleView>) -> Seq<Seq<u8>> {
    rules.map_values(|r: BusRuleView| utf8(rendered(r)))
}

/// The config's own rules for one bus, in file order, all of them the bus
/// node's own.
pub open spec fn explicit(rules: Seq<BusRuleView>, node: nat) -> Seq<RuleView> {
    all_added(Seq::empty(), explicit_args(rules), rules.len() as int, node)
}

/// The bytes of some fixed arguments.
pub open spec fn fixed_args(args: Seq<&'static str>) -> Seq<Seq<u8>> {
    args.map_values(|a: &'static str| utf8(a@))
}

/// The session-bus arguments a service brings. The watcher is all a tray icon
/// takes, `camera` is covered by the `portals` bundle, and nothing of `a11y`
/// belongs on the session bus.
pub open spec fn bundle_args(s: ServiceView) -> Seq<Seq<u8>> {
    match s {
        ServiceView::Portals => fixed_args(PORTAL_RULES@),
        ServiceView::Notify => seq![utf8("--talk=org.freedesktop.Notifications"@)],
        ServiceView::Tray => seq![utf8("--talk=org.kde.StatusNotifierWatcher"@)],
        ServiceView::InputMethod => fixed_args(INPUT_METHOD_RULES@),
        ServiceView::Mpris { name } => seq![utf8("--own=org.mpris.MediaPlayer2."@ + name)],
        _ => Seq::empty(),
    }
}

/// The rules with those the first `n` services bring.
pub open spec fn bundled(rules: Seq<RuleView>, services: Seq<ServiceView>, n: int) -> Seq<RuleView>
    decreases n,
{
    if n <= 0 {
        rules
    } else {
        let args = bundle_args(services[n - 1]);
        all_added(
            bundled(rules, services, n - 1),
            args,
            args.len() as int,
            (n - 1) as nat,
        )
    }
}

/// Where the first session bus from `i` on is granted.
pub open spec fn first_session(services: Seq<ServiceView>, i: int) -> Option<int>
    decreases services.len() - i,
{
    if i < 0 || i >= services.len() {
        None
    } else if services[i] is Dbus {
        Some(i)
    } else {
        first_session(services, i + 1)
    }
}

/// Where the first system bus from `i` on is granted.
pub open spec fn first_system(services: Seq<ServiceView>, i: int) -> Option<int>
    decreases services.len() - i,
{
    if i < 0 || i >= services.len() {
        None
    } else if services[i] is SystemBus {
        Some(i)
    } else {
        first_system(services, i + 1)
    }
}

/// Where the first accessibility bus from `i` on is granted.
pub open spec fn first_a11y(services: Seq<ServiceView>, i: int) -> Option<int>
    decreases services.len() - i,
{
    if i < 0 || i >= services.len() {
        None
    } else if services[i] is A11y {
        Some(i)
    } else {
        first_a11y(services, i + 1)
    }
}

/// The session bus's section.
pub open spec fn session_section(services: Seq<ServiceView>) -> Option<SectionView> {
    match first_session(services, 0) {
        None => None,
        Some(i) => Some(
            SectionView {
                node: i as nat,
                rules: bundled(
                    explicit(services[i]->Dbus_rules, i as nat),
                    services,
                    services.len() as int,
                ),
            },
        ),
    }
}

/// The system bus's section: its own list is the whole confinement.
pub open spec fn system_section(services: Seq<ServiceView>) -> Option<SectionView> {
    match first_system(services, 0) {
        None => None,
        Some(i) => Some(
            SectionView {
                node: i as nat,
                rules: explicit(services[i]->SystemBus_rules, i as nat),
            },
        ),
    }
}

/// The accessibility bus's section: a fixed set, with no user rules to merge.
pub open spec fn a11y_section(services: Seq<ServiceView>) -> Option<SectionView> {
    match first_a11y(services, 0) {
        None => None,
        Some(i) => Some(
            SectionView {
                node: i as nat,
                rules: all_added(Seq::empty(), fixed_args(A11Y_RULES@), 9, i as nat),
            },
        ),
    }
}

/// The proxy plan for some services, where a bus is granted.
pub open spec fn plan_of(services: Seq<ServiceView>, instance: Seq<char>) -> Option<PlanView> {
    if first_session(services, 0) is None && first_system(services, 0) is None {
        None
    } else {
        let portals = services.contains(ServiceView::Portals);
        Some(
            PlanView {
                session: session_section(services),
                system: system_section(services),
                a11y: a11y_section(services),
                flatpak_info: utf8(identity_text(instance, portals)),
                portals,
                app_id: instance_app_id(instance),
            },
        )
    }
}

/// Append `arg` unless it is already there.
fn push(rules: &mut Vec<Rule>, arg: Vec<u8>, node: usize)
    ensures
        policy_views(final(rules)@) == added(policy_views(old(rules)@), arg@, node as nat),
{
    let ghost all = policy_views(rules@);
    let mut i: usize = 0;
    while i < rules.len()
        invariant
            rules@ == old(rules)@,
            all == policy_views(rules@),
            i <= rules@.len(),
            forall|j: int| 0 <= j < i ==> (#[trigger] all[j]).arg != arg@,
        decreases rules@.len() - i,
    {
        assert(all[i as int].arg == rules@[i as int].arg@);
        if same_bytes(&rules[i].arg, &arg) {
            assert(all[i as int].arg == arg@);
            return;
        }
        i = i + 1;
    }
    rules.push(Rule { arg, node });
    assert(policy_views(rules@) =~= all.push(RuleView { arg: arg@, node: node as nat }));
}

fn push_fixed(rules: &mut Vec<Rule>, args: &[&'static str], node: usize)
    ensures
        policy_views(final(rules)@) == all_added(
            policy_views(old(rules)@),
            fixed_args(args@),
            args@.len() as int,
            node as nat,
        ),
{
    let ghost first = policy_views(rules@);
    let ghost all = fixed_args(args@);
    let mut i: usize = 0;
    while i < args.len()
        invariant
            first == policy_views(old(rules)@),
            all == fixed_args(args@),
            i <= args@.len(),
            policy_views(rules@) == all_added(first, all, i as int, node as nat),
        decreases args@.len() - i,
    {
        assert(all[i as int] == utf8(args@[i as int]@));
        push(rules, bytes_of(args[i]), node);
        i = i + 1;
    }
}

/// The config's own rules for one bus, in file order, all of them the bus
/// node's own.
fn explicit_rules(rules: &Vec<BusRule>, node: usize) -> (r: Vec<Rule>)
    ensures
        policy_views(r@) == explicit(rule_views(rules@), node as nat),
{
    let ghost all = explicit_args(rule_views(rules@));
    let mut out: Vec<Rule> = Vec::new();
    let mut i: usize = 0;
    assert(policy_views(out@) =~= Seq::empty());
    while i < rules.len()
        invariant
            all == explicit_args(rule_views(rules@)),
            i <= rules@.len(),
            policy_views(out@) == all_added(Seq::empty(), all, i as int, node as nat),
        decreases rules@.len() - i,
    {
        assert(all[i as int] == utf8(rendered(rules@[i as int]@)));
        push(&mut out, bytes_of(&render(&rules[i])), node);
        i = i + 1;
    }
    out
}

fn push_bundle(rules: &mut Vec<Rule>, service: &Service, node: usize)
    ensures
        policy_views(final(rules)@) == all_added(
            policy_views(old(rules)@),
            bundle_args(service@),
            bundle_args(service@).len() as int,
            node as nat,
        ),
{
    let ghost before = policy_views(rules@);
    proof {
        reveal_with_fuel(all_added, 2);
    }
    match service {
        Service::Portals => push_fixed(rules, &PORTAL_RULES, node),
        Service::Notify => push(rules, bytes_of("--talk=org.freedesktop.Notifications"), node),
        Service::Tray => push(rules, bytes_of("--talk=org.kde.StatusNotifierWatcher"), node),
        Service::InputMethod => push_fixed(rules, &INPUT_METHOD_RULES, node),
        Service::Mpris { name } => push(
            rules,
            bytes_of(&joined("--own=org.mpris.MediaPlayer2.", name)),
            node,
        ),
        _ => {},
    }
}

fn find_session(services: &[Service]) -> (r: Option<usize>)
    ensures
        match r {
            Some(i) => first_session(service_views(services@), 0) == Some(i as int) && i
                < services@.len() && services@[i as int] is Dbus,
            None => first_session(service_views(services@), 0) is None,
        },
{
    let ghost all = service_views(services@);
    let mut i: usize = 0;
    while i < services.len()
        invariant
            all == service_views(services@),
            i <= services@.len(),
            first_session(all, 0) == first_session(all, i as int),
        decreases services@.len() - i,
    {
        assert(all[i as int] == services@[i as int]@);
        match &services[i] {
            Service::Dbus { rules: _ } => {
                return Some(i);
            },
            _ => {},
        }
        i = i + 1;
    }
    None
}

fn find_system(services: &[Service]) -> (r: Option<usize>)
    ensures
        match r {
            Some(i) => first_system(service_views(services@), 0) == Some(i as int) && i
                < services@.len() && services@[i as int] is SystemBus,
            None => first_system(service_views(services@), 0) is None,
        },
{
    let ghost all = service_views(services@);
    let mut i: usize = 0;
    while i < services.len()
        invariant
            all == service_views(services@),
            i <= services@.len(),
            first_system(all, 0) == first_system(all, i as int),
        decreases services@.len() - i,
    {
        assert(all[i as int] == services@[i as int]@);
        match &services[i] {
            Service::SystemBus { rules: _ } => {
                return Some(i);
            },
            _ => {},
        }
        i = i + 1;
    }
    None
}

fn find_a11y(services: &[Service]) -> (r: Option<usize>)
    ensures
        match r {
            Some(i) => first_a11y(service_views(services@), 0) == Some(i as int),
            None => first_a11y(service_views(services@), 0) is None,
        },
{
    let ghost all = service_views(services@);
    let mut i: usize = 0;
    while i < services.len()
        invariant
            all == service_views(services@),
            i <= services@.len(),
            first_a11y(all, 0) == first_a11y(all, i as int),
        decreases services@.len() - i,
    {
        assert(all[i as int] == services@[i as int]@);
        match &services[i] {
            Service::A11y => {
                return Some(i);
            },
            _ => {},
        }
        i = i + 1;
    }
    None
}

fn grants_portals(services: &[Service]) -> (r: bool)
    ensures
        r == service_views(services@).contains(ServiceView::Portals),
{
    let ghost all = service_views(services@);
    let mut i: usize = 0;
    while i < services.len()
        invariant
            all == service_views(services@),
            i <= services@.len(),
            forall|j: int| 0 <= j < i ==> all[j] != ServiceView::Portals,
        decreases services@.len() - i,
    {
        assert(all[i as int] == services@[i as int]@);
        match &services[i] {
            Service::Portals => {
                assert(all.contains(all[i as int]));
                return true;
            },
            _ => {},
        }
        i = i + 1;
    }
    false
}

fn session_of(services: &[Service]) -> (r: Option<Section>)
    ensures
        maybe(r) == session_section(service_views(services@)),
{
    let ghost all = service_views(services@);
    let node = match find_session(services) {
        Some(i) => i,
        None => {
            return None;
        },
    };
    assert(all[node as int] == services@[node as int]@);
    let mut rules = match &services[node] {
        Service::Dbus { rules } => explicit_rules(rules, node),
        _ => Vec::new(),
    };
    let ghost first = policy_views(rules@);
    // Bundles are sets of session-bus rules; the system bus never gets one,
    // and its own list is the whole confinement.
    let mut i: usize = 0;
    while i < services.len()
        invariant
            all == service_views(services@),
            i <= services@.len(),
            policy_views(rules@) == bundled(first, all, i as int),
        decreases services@.len() - i,
    {
        assert(all[i as int] == services@[i as int]@);
        push_bundle(&mut rules, &services[i], i);
        i = i + 1;
    }
    Some(Section { node, rules })
}

fn system_of(services: &[Service]) -> (r: Option<Section>)
    ensures
        maybe(r) == system_section(service_views(services@)),
{
    let ghost all = service_views(services@);
    let node = match find_system(services) {
        Some(i) => i,
        None => {
            return None;
        },
    };
    assert(all[node as int] == services@[node as int]@);
    let rules = match &services[node] {
        Service::SystemBus { rules } => explicit_rules(rules, node),
        _ => Vec::new(),
    };
    Some(Section { node, rules })
}

/// The proxy plan for `services`, or `None` when no bus is granted and no
/// proxy runs at all. `a11y` is never the only bus: the parser refuses the
/// node without `dbus`. `instance` is a validated instance name.
pub fn plan(services: &[Service], instance: &str) -> (r: Option<Plan>)
    ensures
        maybe(r) == plan_of(service_views(services@), instance@),
{
    let session = session_of(services);
    let system = system_of(services);
    if session.is_none() && system.is_none() {
        return None;
    }
    let portals = grants_portals(services);
    let a11y = match find_a11y(services) {
        Some(node) => {
            let mut rules: Vec<Rule> = Vec::new();
            assert(policy_views(rules@) =~= Seq::empty());
            push_fixed(&mut rules, &A11Y_RULES, node);
            Some(Section { node, rules })
        },
        None => None,
    };
    Some(
        Plan {
            session,
            system,
            a11y,
            flatpak_info: flatpak_info(instance, portals),
            portals,
            app_id: app_id(instance),
        },
    )
}

/// The buses a plan serves: each socket's file name with the config node that
/// granted it.
pub open spec fn buses_of(p: PlanView) -> Seq<(Seq<char>, Seq<char>)> {
    (if p.session is Some {
        seq![(SESSION_SOCKET@, SESSION_NODE@)]
    } else {
        Seq::empty()
    }) + (if p.system is Some {
        seq![(SYSTEM_SOCKET@, SYSTEM_NODE@)]
    } else {
        Seq::empty()
    }) + (if p.a11y is Some {
        seq![(A11Y_SOCKET@, A11Y_NODE@)]
    } else {
        Seq::empty()
    })
}

/// The models of a list of buses.
pub open spec fn bus_views(buses: Seq<(&'static str, &'static str)>) -> Seq<
    (Seq<char>, Seq<char>),
> {
    Seq::new(buses.len(), |i: int| (buses[i].0@, buses[i].1@))
}

impl Plan {
    /// The buses the proxy serves, in the order it is told to bind them: each
    /// socket's file name, the one it has in the proxy's directory and, once
    /// the launcher has moved it, in the instance's, with the config node that
    /// granted it, so a failure names what to change.
    pub fn buses(&self) -> (r: Vec<(&'static str, &'static str)>)
        ensures
            bus_views(r@) == buses_of(self@),
    {
        let mut out: Vec<(&'static str, &'static str)> = Vec::new();
        if self.session.is_some() {
            out.push((SESSION_SOCKET, SESSION_NODE));
        }
        if self.system.is_some() {
            out.push((SYSTEM_SOCKET, SYSTEM_NODE));
        }
        if self.a11y.is_some() {
            out.push((A11Y_SOCKET, A11Y_NODE));
        }
        assert(bus_views(out@) =~= buses_of(self@));
        out
    }
}

/// Whether no argument stands twice.
pub open spec fn distinct(rules: Seq<RuleView>) -> bool {
    forall|i: int, j: int|
        #![trigger rules[i], rules[j]]
        0 <= i < j < rules.len() ==> rules[i].arg != rules[j].arg
}

proof fn lemma_all_added(rules: Seq<RuleView>, args: Seq<Seq<u8>>, n: int, node: nat)
    requires
        distinct(rules),
        n <= args.len(),
    ensures
        distinct(all_added(rules, args, n, node)),
    decreases n,
{
    if n > 0 {
        lemma_all_added(rules, args, n - 1, node);
        let before = all_added(rules, args, n - 1, node);
        let after = added(before, args[n - 1], node);
        if !has_rule(before, args[n - 1]) {
            assert forall|i: int, j: int|
                #![trigger after[i], after[j]]
                0 <= i < j < after.len() implies after[i].arg != after[j].arg by {
                if j == before.len() {
                    assert(before[i].arg != args[n - 1]);
                } else {
                    assert(after[i] == before[i] && after[j] == before[j]);
                }
            }
        }
    }
}

proof fn lemma_bundled(rules: Seq<RuleView>, services: Seq<ServiceView>, n: int)
    requires
        distinct(rules),
    ensures
        distinct(bundled(rules, services, n)),
    decreases n,
{
    if n > 0 {
        lemma_bundled(rules, services, n - 1);
        let args = bundle_args(services[n - 1]);
        lemma_all_added(
            bundled(rules, services, n - 1),
            args,
            args.len() as int,
            (n - 1) as nat,
        );
    }
}

/// A plan exists exactly where a bus is granted, and no bus's rules hold an
/// argument twice.
pub proof fn a_plan_is_for_granted_buses_and_holds_no_rule_twice(
    services: Seq<ServiceView>,
    instance: Seq<char>,
)
    ensures
        plan_of(services, instance) is Some <==> exists|i: int|
            0 <= i < services.len() && ((#[trigger] services[i]) is Dbus
                || services[i] is SystemBus),
        plan_of(services, instance) matches Some(p) ==> {
            &&& p.session matches Some(s) ==> distinct(s.rules)
            &&& p.system matches Some(s) ==> distinct(s.rules)
            &&& p.a11y matches Some(s) ==> distinct(s.rules)
        },
{
    lemma_first_session(services, 0);
    lemma_first_system(services, 0);
    if let Some(i) = first_session(services, 0) {
        let own = services[i]->Dbus_rules;
        lemma_all_added(Seq::empty(), explicit_args(own), own.len() as int, i as nat);
        lemma_bundled(explicit(own, i as nat), services, services.len() as int);
    }
    if let Some(i) = first_system(services, 0) {
        let own = services[i]->SystemBus_rules;
        lemma_all_added(Seq::empty(), explicit_args(own), own.len() as int, i as nat);
    }
    if let Some(i) = first_a11y(services, 0) {
        lemma_all_added(Seq::empty(), fixed_args(A11Y_RULES@), 9, i as nat);
    }
}

proof fn lemma_first_session(services: Seq<ServiceView>, i: int)
    requires
        0 <= i,
    ensures
        match first_session(services, i) {
            Some(k) => i <= k < services.len() && services[k] is Dbus,
            None => forall|k: int| i <= k < services.len() ==> !((#[trigger] services[k]) is Dbus),
        },
    decreases services.len() - i,
{
    if i < services.len() && !(services[i] is Dbus) {
        lemma_first_session(services, i + 1);
    }
}

proof fn lemma_first_system(services: Seq<ServiceView>, i: int)
    requires
        0 <= i,
    ensures
        match first_system(services, i) {
            Some(k) => i <= k < services.len() && services[k] is SystemBus,
            None => forall|k: int|
                i <= k < services.len() ==> !((#[trigger] services[k]) is SystemBus),
        },
    decreases services.len() - i,
{
    if i < services.len() && !(services[i] is SystemBus) {
        lemma_first_system(services, i + 1);
    }
}

} // verus!
