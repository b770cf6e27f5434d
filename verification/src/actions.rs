//! Actions that are run when a client is entered or left: a VCP feature of a
//! monitor is set over DDC.
use crate::ipc::{ActionTrigger, ActionView, ClientAction};
use crate::text::{
    contains, decimal, decimal_is_read_back, decimal_is_trimmed, decimal_of, hex_byte, hex_of, join, joined, lowered, occurs_in, opt_text,
    parse_number, parsed, quote_option, quoted_option, separated, texts, to_ascii_lowercase, trim,
    trimmed,
};
use vstd::prelude::*;
use vstd::slice::slice_subrange;
use vstd::string::{StrSliceExecFns, StringExecFns};

verus! {

/// Whether an action is started as soon as the cursor crosses over to a client
/// that is ready, before the client acknowledges: an action on entering.
pub open spec fn is_prefired(action: ActionView) -> bool {
    action.on == ActionTrigger::Enter
}

/// Whether an action is started as soon as the cursor crosses over to a client
/// that is ready.
pub fn is_fast_enter_prefire_supported(action: &ClientAction) -> (r: bool)
    ensures
        r == is_prefired(action@),
{
    match action {
        ClientAction::DdcVcp { on, .. } => *on == ActionTrigger::Enter,
    }
}

/// When an action is run.
pub fn action_trigger(action: &ClientAction) -> (t: ActionTrigger)
    ensures
        t == action@.on,
{
    match action {
        ClientAction::DdcVcp { on, .. } => *on,
    }
}

/// Why an action could not be run.
#[derive(Debug)]
pub enum ActionError {
    /// The platform has no DDC.
    Unsupported,
    /// The task that ran the action failed.
    Join(String),
    /// The platform refused.
    Platform(String),
}

impl ActionError {
    /// The sentence that tells of the error.
    pub open spec fn text(&self) -> Seq<char> {
        match self {
            ActionError::Unsupported => "DDC/VCP actions are only supported on Windows"@,
            ActionError::Join(e) => "blocking action task failed: "@ + e@,
            ActionError::Platform(e) => e@,
        }
    }

    /// The sentence that tells of the error.
    pub fn message(&self) -> (s: String)
        ensures
            s@ == self.text(),
    {
        match self {
            ActionError::Unsupported => String::from_str(
                "DDC/VCP actions are only supported on Windows",
            ),
            ActionError::Join(e) => joined("blocking action task failed: ", e.as_str()),
            ActionError::Platform(e) => e.clone(),
        }
    }
}

/// The text that UTF-16 units stand for. A unit that is half of a surrogate
/// pair without the other half stands for the replacement character.
pub open spec fn utf16_text(units: Seq<u16>) -> Seq<char>
    decreases units.len(),
{
    if units.len() == 0 {
        seq![]
    } else if units[0] < 0xd800 || 0xdfff < units[0] {
        seq![units[0] as char] + utf16_text(units.skip(1))
    } else if units[0] < 0xdc00 && units.len() > 1 && 0xdc00 <= units[1] <= 0xdfff {
        seq![(0x10000 + (units[0] - 0xd800) * 0x400 + (units[1] - 0xdc00)) as char] + utf16_text(
            units.skip(2),
        )
    } else {
        seq!['\u{fffd}'] + utf16_text(units.skip(1))
    }
}

/// `String::from_utf16_lossy` decodes UTF-16, and puts the replacement
/// character in the place of every unpaired surrogate.
pub assume_specification[ String::from_utf16_lossy ](units: &[u16]) -> (s: String)
    ensures
        s@ == utf16_text(units@),
;

/// A physical monitor.
pub struct PhysicalMonitor {
    /// The number of the monitor.
    pub index: usize,
    pub description: String,
}

/// What stands in front of the first zero; all, if there is none.
pub open spec fn before_zero(units: Seq<u16>) -> Seq<u16>
    decreases units.len(),
{
    if units.len() == 0 || units[0] == 0 {
        seq![]
    } else {
        seq![units[0]] + before_zero(units.skip(1))
    }
}

proof fn lemma_before_zero(units: Seq<u16>, n: int)
    requires
        0 <= n <= units.len(),
        forall|i: int| 0 <= i < n ==> units[i] != 0,
        n == units.len() || units[n] == 0,
    ensures
        before_zero(units) == units.take(n),
    decreases n,
{
    if n > 0 {
        lemma_before_zero(units.skip(1), n - 1);
        assert(units.take(n) =~= seq![units[0]] + units.skip(1).take(n - 1));
    } else {
        assert(units.take(n) =~= Seq::<u16>::empty());
    }
}

/// The description of a monitor: UTF-16 up to the first zero.
pub fn monitor_description(units: &Vec<u16>) -> (s: String)
    ensures
        s@ == utf16_text(before_zero(units@)),
{
    let mut len: usize = 0;
    while len < units.len() && units[len] != 0
        invariant
            len <= units@.len(),
            forall|i: int| 0 <= i < len ==> units@[i] != 0,
        decreases units@.len() - len,
    {
        len = len + 1;
    }
    let front = slice_subrange(units.as_slice(), 0, len);
    proof {
        lemma_before_zero(units@, len as int);
        assert(front@ =~= units@.take(len as int));
    }
    String::from_utf16_lossy(front)
}

/// The descriptions of the physical monitors of all displays, in their order.
pub open spec fn all_descriptions(displays: Seq<Vec<Vec<u16>>>) -> Seq<Seq<char>>
    decreases displays.len(),
{
    if displays.len() == 0 {
        seq![]
    } else {
        all_descriptions(displays.drop_last()) + displays.last()@.map_values(
            |units: Vec<u16>| utf16_text(before_zero(units@)),
        )
    }
}

/// Whether the monitors have these descriptions, and are numbered from zero
/// on.
pub open spec fn numbered(monitors: Seq<PhysicalMonitor>, descriptions: Seq<Seq<char>>) -> bool {
    &&& monitors.len() == descriptions.len()
    &&& forall|i: int|
        0 <= i < monitors.len() ==> (#[trigger] monitors[i]).index == i && monitors[i].description@
            == descriptions[i]
}

/// Numbers the physical monitors, given the descriptions of those of each
/// display. That there are none is an error.
pub fn enumerate_physical_monitors(displays: &Vec<Vec<Vec<u16>>>) -> (res: Result<
    Vec<PhysicalMonitor>,
    ActionError,
>)
    ensures
        match res {
            Ok(monitors) => numbered(monitors@, all_descriptions(displays@)) && monitors@.len() > 0,
            Err(e) => all_descriptions(displays@).len() == 0 && e.text()
                == "no physical monitors were enumerated"@,
        },
{
    let mut out: Vec<PhysicalMonitor> = Vec::new();
    let mut i: usize = 0;
    while i < displays.len()
        invariant
            i <= displays@.len(),
            numbered(out@, all_descriptions(displays@.take(i as int))),
        decreases displays@.len() - i,
    {
        let physical = &displays[i];
        let ghost before = all_descriptions(displays@.take(i as int));
        let ghost new = physical@.map_values(|units: Vec<u16>| utf16_text(before_zero(units@)));
        let mut j: usize = 0;
        assert(before + new.take(0) =~= before);
        while j < physical.len()
            invariant
                j <= physical@.len(),
                new == physical@.map_values(|units: Vec<u16>| utf16_text(before_zero(units@))),
                numbered(out@, before + new.take(j as int)),
            decreases physical@.len() - j,
        {
            let index: usize = out.len();
            let description = monitor_description(&physical[j]);
            out.push(PhysicalMonitor { index, description });
            assert(before + new.take(j + 1) =~= (before + new.take(j as int)).push(new[j as int]));
            j = j + 1;
        }
        proof {
            assert(new.take(j as int) =~= new);
            assert(displays@.take(i + 1).drop_last() =~= displays@.take(i as int));
            assert(displays@.take(i + 1).last() == physical);
        }
        i = i + 1;
    }
    assert(displays@.take(i as int) =~= displays@);
    if out.len() == 0 {
        return Err(
            ActionError::Platform(String::from_str("no physical monitors were enumerated")),
        );
    }
    Ok(out)
}

/// Whether a monitor is the one that a selector asks for: a number is that of
/// the monitor; other text is part of the description, whatever the case of
/// its letters, or holds the name `monitor` with the number behind it.
pub open spec fn matches_selector(m: PhysicalMonitor, selector: Seq<char>) -> bool {
    match parsed(selector, 10, usize::MAX as int) {
        Ok(n) => m.index == n,
        Err(_) => occurs_in(lowered(m.description@), lowered(selector)) || occurs_in(
            lowered(selector),
            "monitor"@ + decimal(m.index as nat),
        ),
    }
}

/// The selector without white space around it, if anything is left.
pub open spec fn effective_selector(selector: Option<Seq<char>>) -> Option<Seq<char>> {
    match selector {
        Some(s) => if trimmed(s).len() > 0 {
            Some(trimmed(s))
        } else {
            None
        },
        None => None,
    }
}

/// Whether a monitor is one that the selector admits; without a selector,
/// every one is.
pub open spec fn admitted(m: PhysicalMonitor, selector: Option<Seq<char>>) -> bool {
    match effective_selector(selector) {
        Some(s) => matches_selector(m, s),
        None => true,
    }
}

/// The first monitor that the selector admits.
pub fn select_monitor<'a>(monitors: &'a Vec<PhysicalMonitor>, selector: &Option<String>) -> (r:
    Option<&'a PhysicalMonitor>)
    ensures
        match r {
            Some(m) => exists|i: int|
                #![trigger monitors@[i]]
                0 <= i < monitors@.len() && *m == monitors@[i] && admitted(
                    monitors@[i],
                    opt_text(*selector),
                ) && forall|j: int|
                    0 <= j < i ==> !admitted(#[trigger] monitors@[j], opt_text(*selector)),
            None => forall|i: int|
                0 <= i < monitors@.len() ==> !admitted(
                    #[trigger] monitors@[i],
                    opt_text(*selector),
                ),
        },
{
    let text = match selector {
        Some(s) => trim(s.as_str()),
        None => "",
    };
    proof {
        reveal_strlit("");
    }
    if text.unicode_len() == 0 {
        assert(effective_selector(opt_text(*selector)) is None);
        if monitors.len() > 0 {
            assert(admitted(monitors@[0], opt_text(*selector)));
            return Some(&monitors[0]);
        }
        return None;
    }
    let number = parse_number(text, 10, usize::MAX as u64);
    let lower = to_ascii_lowercase(text);
    let mut i: usize = 0;
    while i < monitors.len()
        invariant
            i <= monitors@.len(),
            effective_selector(opt_text(*selector)) == Some(text@),
            lower@ == lowered(text@),
            match number {
                Ok(n) => parsed(text@, 10, usize::MAX as int) == Ok::<
                    int,
                    crate::text::ParseNumberError,
                >(n as int),
                Err(e) => parsed(text@, 10, usize::MAX as int) == Err::<
                    int,
                    crate::text::ParseNumberError,
                >(e),
            },
            forall|j: int| 0 <= j < i ==> !admitted(#[trigger] monitors@[j], opt_text(*selector)),
        decreases monitors@.len() - i,
    {
        let m = &monitors[i];
        let found = match number {
            Ok(n) => m.index as u64 == n,
            Err(_) => contains(to_ascii_lowercase(m.description.as_str()).as_str(), lower.as_str())
                || contains(
                lower.as_str(),
                joined("monitor", decimal_of(m.index as u64).as_str()).as_str(),
            ),
        };
        assert(found == admitted(monitors@[i as int], opt_text(*selector)));
        if found {
            return Some(m);
        }
        i = i + 1;
    }
    None
}

/// A monitor's number and description.
pub open spec fn label(m: PhysicalMonitor) -> Seq<char> {
    decimal(m.index as nat) + ":"@ + m.description@
}

/// A monitor's number and description.
fn label_of(m: &PhysicalMonitor) -> (s: String)
    ensures
        s@ == label(*m),
{
    joined(joined(decimal_of(m.index as u64).as_str(), ":").as_str(), m.description.as_str())
}

/// The monitors' numbers and descriptions.
fn labels_of(monitors: &Vec<PhysicalMonitor>) -> (r: Vec<String>)
    ensures
        texts(r@) == monitors@.map_values(|m: PhysicalMonitor| label(m)),
{
    let mut r: Vec<String> = Vec::new();
    let mut i: usize = 0;
    while i < monitors.len()
        invariant
            i <= monitors@.len(),
            r@.len() == i,
            forall|j: int| 0 <= j < i ==> (#[trigger] r@[j])@ == label(monitors@[j]),
        decreases monitors@.len() - i,
    {
        r.push(label_of(&monitors[i]));
        i = i + 1;
    }
    assert(texts(r@) =~= monitors@.map_values(|m: PhysicalMonitor| label(m)));
    r
}

/// What is told when the selector admits no monitor.
pub open spec fn no_match_text(monitors: Seq<PhysicalMonitor>, selector: Option<Seq<char>>) -> Seq<
    char,
> {
    "no matching physical monitor for selector "@ + quoted_option(selector) + "; available: ["@
        + separated(monitors.map_values(|m: PhysicalMonitor| label(m)), ", "@) + "]"@
}

/// A VCP feature that is to be set on a monitor.
#[derive(Clone, Copy, Debug, PartialEq, Eq, Structural)]
pub struct VcpCall {
    /// The number of the monitor.
    pub monitor: usize,
    pub code: u8,
    pub value: u32,
}

/// Decides on which monitor a VCP feature is set: the first that the selector
/// admits. Where the platform has no DDC there are no monitors to choose from,
/// and the action is not supported.
pub fn set_vcp(
    monitors: &Option<Vec<PhysicalMonitor>>,
    monitor_selector: &Option<String>,
    code: u8,
    value: u32,
) -> (res: Result<VcpCall, ActionError>)
    ensures
        match (monitors, res) {
            (None, Ok(_)) => false,
            (None, Err(e)) => e is Unsupported,
            (Some(ms), Ok(call)) => call.code == code && call.value == value && exists|i: int|
                #![trigger ms@[i]]
                0 <= i < ms@.len() && call.monitor == ms@[i].index && admitted(
                    ms@[i],
                    opt_text(*monitor_selector),
                ) && forall|j: int|
                    0 <= j < i ==> !admitted(#[trigger] ms@[j], opt_text(*monitor_selector)),
            (Some(ms), Err(e)) => e is Platform && e.text() == no_match_text(
                ms@,
                opt_text(*monitor_selector),
            ) && forall|i: int|
                0 <= i < ms@.len() ==> !admitted(
                    #[trigger] ms@[i],
                    opt_text(*monitor_selector),
                ),
        },
{
    let monitors = match monitors {
        Some(monitors) => monitors,
        None => return Err(ActionError::Unsupported),
    };
    match select_monitor(monitors, monitor_selector) {
        Some(m) => Ok(VcpCall { monitor: m.index, code, value }),
        None => {
            let mut s = String::from_str("no matching physical monitor for selector ");
            s.append(quote_option(monitor_selector).as_str());
            s.append("; available: [");
            s.append(join(&labels_of(monitors), ", ").as_str());
            s.append("]");
            Err(ActionError::Platform(s))
        },
    }
}

/// What is told when the platform refuses to set a VCP feature.
pub open spec fn refused_text(m: PhysicalMonitor, code: u8, value: u32, error: Seq<char>) -> Seq<
    char,
> {
    "SetVCPFeature(code=0x"@ + hex_byte(code) + ", value="@ + decimal(value as nat)
        + ") failed on monitor "@ + label(m) + ": "@ + error
}

/// The result of an action, given what the platform said when the feature was
/// set.
pub fn vcp_result(m: &PhysicalMonitor, code: u8, value: u32, error: &Option<String>) -> (res:
    Result<(), ActionError>)
    ensures
        match (error, res) {
            (None, Ok(())) => true,
            (Some(e), Err(r)) => r is Platform && r.text() == refused_text(*m, code, value, e@),
            _ => false,
        },
{
    match error {
        None => Ok(()),
        Some(e) => {
            let mut s = String::from_str("SetVCPFeature(code=0x");
            s.append(hex_of(code).as_str());
            s.append(", value=");
            s.append(decimal_of(value as u64).as_str());
            s.append(") failed on monitor ");
            s.append(label_of(m).as_str());
            s.append(": ");
            s.append(e.as_str());
            Err(ActionError::Platform(s))
        },
    }
}

/// A number selects the monitor of that number, and no other.
pub proof fn number_selects_its_monitor(
    monitors: Seq<PhysicalMonitor>,
    descriptions: Seq<Seq<char>>,
    n: nat,
    i: int,
)
    requires
        numbered(monitors, descriptions),
        n <= usize::MAX,
        0 <= i < monitors.len(),
    ensures
        admitted(monitors[i], Some(decimal(n))) <==> i == n,
{
    decimal_is_trimmed(n);
    decimal_is_read_back(n, usize::MAX as int);
}

/// Without a selector, and with one that is only white space, the first
/// monitor is chosen.
pub proof fn first_monitor_is_the_default(m: PhysicalMonitor, selector: Seq<char>)
    requires
        trimmed(selector).len() == 0,
    ensures
        admitted(m, None),
        admitted(m, Some(selector)),
{
}

/// Units of which none is half of a surrogate pair stand each for the character
/// of its number; a pair stands for one character, and a lone half for the
/// replacement character.
pub proof fn units_stand_for_characters(units: Seq<u16>, a: u16, b: u16)
    ensures
        a < 0xd800 || a > 0xdfff ==> utf16_text(seq![a] + units) == seq![a as char] + utf16_text(
            units,
        ),
        0xd800 <= a <= 0xdbff && 0xdc00 <= b <= 0xdfff ==> utf16_text(seq![a, b] + units) == seq![
            (0x10000 + (a - 0xd800) * 0x400 + (b - 0xdc00)) as char,
        ] + utf16_text(units),
        0xdc00 <= a <= 0xdfff ==> utf16_text(seq![a] + units) == seq!['\u{fffd}'] + utf16_text(
            units,
        ),
        utf16_text(Seq::<u16>::empty()) == Seq::<char>::empty(),
{
    assert((seq![a] + units).skip(1) =~= units);
    assert((seq![a, b] + units).skip(2) =~= units);
}

/// A description ends in front of its first zero: everything in front of that
/// belongs to it, and nothing behind.
pub proof fn description_ends_at_zero(units: Seq<u16>) -> (n: int)
    ensures
        0 <= n <= units.len(),
        before_zero(units) == units.take(n),
        forall|i: int| 0 <= i < n ==> #[trigger] units[i] != 0,
        n < units.len() ==> units[n] == 0,
    decreases units.len(),
{
    if units.len() == 0 || units[0] == 0 {
        assert(units.take(0) =~= Seq::<u16>::empty());
        0
    } else {
        let n = description_ends_at_zero(units.skip(1));
        assert(seq![units[0]] + units.skip(1).take(n) =~= units.take(n + 1));
        assert forall|i: int| 0 <= i < n + 1 implies #[trigger] units[i] != 0 by {
            if i > 0 {
                assert(units.skip(1)[i - 1] != 0);
            }
        }
        n + 1
    }
}

/// The monitors of all displays are listed one display after the other, each
/// display's in their order.
pub proof fn monitors_are_listed_in_order(displays: Seq<Vec<Vec<u16>>>, last: Vec<Vec<u16>>, i: int)
    requires
        0 <= i < last@.len(),
    ensures
        ({
            let all = all_descriptions(displays.push(last));
            let n = all_descriptions(displays).len();
            &&& all.len() == n + last@.len()
            &&& all.take(n as int) == all_descriptions(displays)
            &&& all[n + i] == utf16_text(before_zero(last@[i]@))
        }),
{
    assert(displays.push(last).drop_last() =~= displays);
    let all = all_descriptions(displays.push(last));
    let n = all_descriptions(displays).len();
    assert(all.take(n as int) =~= all_descriptions(displays));
}

/// Text that is no number selects the monitors in whose description it stands,
/// whatever the case of the letters of either, and the monitor whose number
/// stands behind the name `monitor` in it.
pub proof fn text_selects_by_description(m: PhysicalMonitor, selector: Seq<char>)
    requires
        parsed(trimmed(selector), 10, usize::MAX as int) is Err,
        trimmed(selector).len() > 0,
    ensures
        admitted(m, Some(selector)) <==> occurs_in(
            lowered(m.description@),
            lowered(trimmed(selector)),
        ) || occurs_in(lowered(trimmed(selector)), "monitor"@ + decimal(m.index as nat)),
        lowered(m.description@) == lowered(trimmed(selector)) ==> admitted(m, Some(selector)),
{
    let d = lowered(m.description@);
    let s = lowered(trimmed(selector));
    if d == s {
        assert(d.subrange(0, d.len() as int) =~= s);
        assert(crate::text::occurs_at(d, s, 0));
    }
}

/// Actions on entering are started early, and no others.
pub proof fn entering_is_started_early(a: ActionView)
    ensures
        is_prefired(a) <==> a.on is Enter,
        is_prefired(a) <==> a.on !is Leave,
{
}

} // verus!
