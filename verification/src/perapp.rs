//! Per-application default output endpoint.
//!
//! Windows keeps a per-application, per-role default endpoint alongside the
//! system-wide one. It is written through an undocumented factory that wants
//! the interface path of a device rather than its endpoint id.

use vstd::prelude::*;
use vstd::string::*;

verus! {

/// Class hosting the per-application endpoint policy.
pub const POLICY_CONFIG_CLASS: &'static str = "Windows.Media.Internal.AudioPolicyConfig";

/// Interface id on Windows 10 21H2 and later, including Windows 11.
pub const IID_21H2: u128 = 0xab3d4648_e242_459f_b02f_541c70306324;

/// Interface id on Windows 10 1803 through 21H1.
pub const IID_DOWNLEVEL: u128 = 0x2a59116d_6c4f_45e0_a74f_707e3fef9258;

/// The render interface class, appended after the endpoint id.
pub const AUDIO_RENDER: &'static str = "#{e6327cad-dcec-4949-ae8a-991e976a79d2}";

/// The prefix that turns an endpoint id into an interface path.
pub const MMDEVAPI_TOKEN: &'static str = "\\\\?\\SWD#MMDEVAPI#";

pub const E_CONSOLE: i32 = 0;

pub const E_MULTIMEDIA: i32 = 1;

pub const E_RENDER: i32 = 0;

/// The role mask for "either role". Console is 0, so it is just multimedia.
pub const ROLE_MASK_CONSOLE_OR_MULTIMEDIA: i32 = 1;

/// `S_OK`.
pub const SUCCESS: i32 = 0;

/// The interface path of an endpoint.
pub open spec fn interface_path_text(endpoint_id: Seq<char>) -> Seq<char> {
    MMDEVAPI_TOKEN@ + endpoint_id + AUDIO_RENDER@
}

/// Builds the path that Windows wants in place of an endpoint id.
pub fn interface_path(endpoint_id: &str) -> (r: String)
    ensures
        r@ == interface_path_text(endpoint_id@),
{
    let mut out: String = MMDEVAPI_TOKEN.to_owned();
    out.append(endpoint_id);
    out.append(AUDIO_RENDER);
    out
}

/// Which of the two known interface ids is in force on this machine.
#[derive(Debug, Clone, Copy, PartialEq, Eq, Structural)]
pub enum Variant {
    /// Windows 10 21H2 and later, including Windows 11.
    Modern,
    /// Windows 10 1803 through 21H1.
    Downlevel,
}

/// The factory that answered.
#[derive(Debug, Clone, Copy, PartialEq, Eq, Structural)]
pub struct Factory {
    pub variant: Variant,
}

/// What to do next while looking for the factory.
#[derive(Debug, Clone, Copy, PartialEq, Eq, Structural)]
pub enum FactoryStep {
    /// Ask for this interface id.
    Try(u128),
    /// The factory is there.
    Ready(Factory),
    /// No known interface answered; this is the last error.
    Failed(i32),
}

/// One attempt to reach an interface.
#[derive(Debug, Clone, Copy, PartialEq, Eq, Structural)]
pub struct Attempt {
    /// The code of the activation.
    pub activation: i32,
    /// The code of the query for the interface, made where the activation
    /// worked.
    pub query: i32,
    /// Whether the query left no interface.
    pub is_null: bool,
}

/// Whether an attempt reached the interface.
pub open spec fn reached(a: Attempt) -> bool {
    a.activation >= 0 && a.query >= 0 && !a.is_null
}

/// The error that an attempt left behind.
pub open spec fn attempt_error(a: Attempt) -> i32 {
    if a.activation < 0 {
        a.activation
    } else {
        a.query
    }
}

/// How the search goes on after the attempts made: the modern interface is
/// tried first, the older one next.
pub open spec fn factory_step(made: Seq<Attempt>) -> FactoryStep {
    if made.len() == 0 {
        FactoryStep::Try(IID_21H2)
    } else if reached(made[0]) {
        FactoryStep::Ready(Factory { variant: Variant::Modern })
    } else if made.len() == 1 {
        FactoryStep::Try(IID_DOWNLEVEL)
    } else if reached(made[1]) {
        FactoryStep::Ready(Factory { variant: Variant::Downlevel })
    } else {
        FactoryStep::Failed(attempt_error(made[1]))
    }
}

fn attempt_reached(a: &Attempt) -> (r: bool)
    ensures
        r == reached(*a),
{
    a.activation >= 0 && a.query >= 0 && !a.is_null
}

/// One write of the policy: for this process, flow and role, this device. An
/// empty device hands the application back to the system default.
#[derive(Debug, PartialEq, Eq)]
pub struct EndpointWrite {
    pub process_id: u32,
    pub flow: i32,
    pub role: i32,
    pub device: String,
}

/// Whether `writes` sets `device` for a process, for both roles, console
/// first.
pub open spec fn writes_both_roles(
    writes: Seq<EndpointWrite>,
    process_id: u32,
    device: Seq<char>,
) -> bool {
    &&& writes.len() == 2
    &&& forall|i: int|
        0 <= i < 2 ==> {
            &&& (#[trigger] writes[i]).process_id == process_id
            &&& writes[i].flow == 0
            &&& writes[i].role == i
            &&& writes[i].device@ == device
        }
}

impl Factory {
    /// Looks for the factory, trying the modern interface id first.
    pub fn new(made: &Vec<Attempt>) -> (r: FactoryStep)
        ensures
            r == factory_step(made@),
    {
        if made.len() == 0 {
            FactoryStep::Try(IID_21H2)
        } else if attempt_reached(&made[0]) {
            FactoryStep::Ready(Factory { variant: Variant::Modern })
        } else if made.len() == 1 {
            FactoryStep::Try(IID_DOWNLEVEL)
        } else if attempt_reached(&made[1]) {
            FactoryStep::Ready(Factory { variant: Variant::Downlevel })
        } else if made[1].activation < 0 {
            FactoryStep::Failed(made[1].activation)
        } else {
            FactoryStep::Failed(made[1].query)
        }
    }

    /// Which interface id answered.
    pub fn variant(&self) -> (r: Variant)
        ensures
            r == self.variant,
    {
        self.variant
    }

    /// Points one application's render output at an endpoint, for both roles.
    ///
    /// Writing only one would move an application that plays through that role
    /// and not one that uses the other.
    pub fn set_default_endpoint(&self, process_id: u32, endpoint_id: &str) -> (r: Vec<
        EndpointWrite,
    >)
        ensures
            writes_both_roles(r@, process_id, interface_path_text(endpoint_id@)),
    {
        let path = interface_path(endpoint_id);
        let copy = path.clone();
        let mut out: Vec<EndpointWrite> = Vec::new();
        out.push(EndpointWrite { process_id, flow: E_RENDER, role: E_CONSOLE, device: path });
        out.push(EndpointWrite { process_id, flow: E_RENDER, role: E_MULTIMEDIA, device: copy });
        out
    }

    /// Hands one application back to the system default output.
    pub fn clear_default_endpoint(&self, process_id: u32) -> (r: Vec<EndpointWrite>)
        ensures
            writes_both_roles(r@, process_id, Seq::empty()),
    {
        let mut out: Vec<EndpointWrite> = Vec::new();
        out.push(
            EndpointWrite {
                process_id,
                flow: E_RENDER,
                role: E_CONSOLE,
                device: String::new(),
            },
        );
        out.push(
            EndpointWrite {
                process_id,
                flow: E_RENDER,
                role: E_MULTIMEDIA,
                device: String::new(),
            },
        );
        out
    }
}

/// Whether this machine has the per-application endpoint facility at all,
/// judged by the attempts to reach it.
pub fn is_supported(made: &Vec<Attempt>) -> (r: bool)
    ensures
        r == (factory_step(made@) is Ready),
{
    match Factory::new(made) {
        FactoryStep::Ready(_) => true,
        _ => false,
    }
}

/// The search ends after two attempts at the latest, and asks for a different
/// interface each time.
pub proof fn the_search_ends(made: Seq<Attempt>)
    ensures
        made.len() >= 2 ==> !(factory_step(made) is Try),
        IID_21H2 != IID_DOWNLEVEL,
        factory_step(Seq::empty()) == FactoryStep::Try(IID_21H2),
        made.len() == 1 && !reached(made[0]) ==> factory_step(made) == FactoryStep::Try(
            IID_DOWNLEVEL,
        ),
{
}

/// The path of an endpoint holds its id between the two fixed parts, so no two
/// endpoints share one.
pub proof fn paths_tell_endpoints_apart(a: Seq<char>, b: Seq<char>)
    ensures
        interface_path_text(a) == interface_path_text(b) ==> a == b,
        crate::text::starts_with(interface_path_text(a), MMDEVAPI_TOKEN@),
        crate::text::ends_with(interface_path_text(a), AUDIO_RENDER@),
        crate::text::occurs(interface_path_text(a), a),
        interface_path_text(a).len() > a.len(),
{
    let head = MMDEVAPI_TOKEN@;
    let tail = AUDIO_RENDER@;
    crate::text::a_part_occurs(head, a, tail);
    crate::text::a_part_occurs(Seq::empty(), head, a + tail);
    crate::text::a_part_occurs(head + a, tail, Seq::empty());
    assert(interface_path_text(a) =~= head + (a + tail));
    assert(interface_path_text(a) =~= (head + a) + tail);
    if interface_path_text(a) == interface_path_text(b) {
        let n = head.len() as int;
        assert(a.len() == b.len());
        assert(interface_path_text(a).subrange(n, n + a.len()) =~= a);
        assert(interface_path_text(b).subrange(n, n + b.len()) =~= b);
    }
    reveal_strlit("\\\\?\\SWD#MMDEVAPI#");
}

/// Both the console and the multimedia role of a process are written, on the
/// render side, and each with the device that was asked for.
pub proof fn both_roles_are_written(writes: Seq<EndpointWrite>, process_id: u32, device: Seq<char>)
    requires
        writes_both_roles(writes, process_id, device),
    ensures
        writes.len() == 2,
        writes[0].role == E_CONSOLE && writes[1].role == E_MULTIMEDIA,
        writes[0].flow == E_RENDER && writes[1].flow == E_RENDER,
        writes[0].process_id == process_id && writes[1].process_id == process_id,
        writes[0].device@ == device && writes[1].device@ == device,
{
}

/// The modern interface is taken wherever it answers, the older one exactly
/// where only that does, and a failure is told by its own code.
pub proof fn the_newest_interface_is_taken(made: Seq<Attempt>)
    ensures
        made.len() >= 1 && made[0].activation >= 0 && made[0].query >= 0 && !made[0].is_null
            ==> factory_step(made) == FactoryStep::Ready(Factory { variant: Variant::Modern }),
        made.len() >= 2 && !reached(made[0]) && made[1].activation >= 0 && made[1].query >= 0
            && !made[1].is_null ==> factory_step(made) == FactoryStep::Ready(
            Factory { variant: Variant::Downlevel },
        ),
        made.len() >= 2 && !reached(made[0]) && made[1].activation < 0 ==> factory_step(made)
            == FactoryStep::Failed(made[1].activation),
        made.len() >= 2 && !reached(made[0]) && made[1].activation >= 0 && made[1].query < 0
            ==> factory_step(made) == FactoryStep::Failed(made[1].query),
        forall|k: int|
            0 <= k < made.len() && k < 2 && ((#[trigger] made[k]).activation < 0 || made[k].query < 0
                || made[k].is_null) ==> !reached(made[k]),
{
}

} // verus!
