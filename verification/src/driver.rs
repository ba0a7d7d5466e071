//! The virtual sound card: detect it, install it, remove it.
//!
//! Installing the card has a failure mode that is much worse than not
//! installing it: once its device exists, Windows often makes it the default
//! playback device, and the machine goes silent. Installing therefore captures
//! the current default first and restores it afterwards.

use crate::path::{
    a_joined_path_ends_in_the_name, is_plain_name, join_head, join_path, joined_path,
    opt_paths_equal, same_opt_path,
};
use crate::device::{find_physical, find_physical_device, DeviceInfo};
use crate::text::{
    a_part_occurs, a_text_without_the_character_is_one_piece, all_digits, ascii_lower, chars_of,
    decimal, ends_with, eq_ignoring_case, from_utf8_lossy, has_prefix, has_suffix, is_digit,
    lemma_index_of, lower_char, occurs, opt_str, opt_text, rows, same_chars, same_ignoring_case,
    same_text, signed_decimal, split, split_at_char, split_by, split_chars, split_once, split_text,
    splitting_goes_piece_by_piece, splitting_once_is_at_the_first, starts_with, string_of, texts,
    the_first_occurrence_is_first, to_ascii_lower, to_decimal, to_signed_decimal, trim, trimmed,
    trimmed_text_stays, utf8_lossy,
};
use crate::wide::{
    bytes_to_units, encode_utf16, from_utf16_lossy, le_bytes, le_bytes_round_trip, le_units,
    units_to_bytes, utf16, utf16_round_trips, utf16_text,
};
use vstd::prelude::*;
use vstd::string::*;
use vstd::utf8::encode_utf8;

verus! {

/// Hardware id of the card's device node.
pub const HARDWARE_ID: &'static str = "Root\\FXVAD";

/// Device class of sound devices.
pub const CLASS_GUID_MEDIA: u128 = 0x4d36e96c_e325_11ce_bfc1_08002be10318;

/// Keeps a console flash away when a tool is run.
pub const CREATE_NO_WINDOW: u32 = 0x0800_0000;

/// Command-line flag that tells an elevated relaunch to install the driver.
pub const ARG_INSTALL_DRIVER: &'static str = "--install-driver";

/// Command-line flag that tells an elevated relaunch to remove the driver.
pub const ARG_REMOVE_DRIVER: &'static str = "--remove-driver";

pub const DRIVER_INF_NAME: &'static str = "fxvad.inf";

pub const DRIVER_SYS_NAME: &'static str = "fxvad.sys";

pub const DRIVER_CAT_NAME: &'static str = "fxvadntamd64.cat";

/// How the virtual sound card looks right now.
#[derive(Debug)]
pub struct DriverStatus {
    /// The driver package is staged in the driver store.
    pub package_staged: bool,
    /// The card's device node exists.
    pub device_present: bool,
    /// An audio endpoint for the card is active, i.e. it actually works.
    pub endpoint_active: bool,
    /// The files we would install from, if found.
    pub source_dir: Option<String>,
}

/// States are equal if they name the same directory, however spelled.
impl PartialEq for DriverStatus {
    fn eq(&self, other: &Self) -> (r: bool) {
        self.package_staged == other.package_staged && self.device_present == other.device_present
            && self.endpoint_active == other.endpoint_active && opt_paths_equal(
            &self.source_dir,
            &other.source_dir,
        )
    }
}

impl vstd::std_specs::cmp::PartialEqSpecImpl for DriverStatus {
    open spec fn obeys_eq_spec() -> bool {
        true
    }

    open spec fn eq_spec(&self, other: &Self) -> bool {
        &&& self.package_staged == other.package_staged
        &&& self.device_present == other.device_present
        &&& self.endpoint_active == other.endpoint_active
        &&& same_opt_path(opt_text(self.source_dir), opt_text(other.source_dir))
    }
}

impl Eq for DriverStatus {

}

/// The summary of a driver status.
pub open spec fn status_summary(staged: bool, device: bool, endpoint: bool) -> Seq<char> {
    if endpoint {
        "virtual sound card active"@
    } else if device {
        "device present but no audio endpoint (driver not started?)"@
    } else if staged {
        "driver staged, device not created"@
    } else {
        "virtual sound card not installed"@
    }
}

impl DriverStatus {
    /// Whether the card is usable.
    ///
    /// Keyed on the endpoint, not on the driver package: a staged package with
    /// no device does nothing for audio.
    pub fn is_usable(&self) -> (r: bool)
        ensures
            r == self.endpoint_active,
    {
        self.endpoint_active
    }

    /// A one-line summary for logs and the tray tooltip.
    pub fn summary(&self) -> (r: String)
        ensures
            r@ == status_summary(self.package_staged, self.device_present, self.endpoint_active),
    {
        match (self.package_staged, self.device_present, self.endpoint_active) {
            (_, _, true) => "virtual sound card active".to_owned(),
            (_, true, false) =>
                "device present but no audio endpoint (driver not started?)".to_owned(),
            (true, false, false) => "driver staged, device not created".to_owned(),
            (false, false, false) => "virtual sound card not installed".to_owned(),
        }
    }
}

/// Puts together the current driver state.
pub fn status(
    device_present: bool,
    endpoint_active: bool,
    published: &Option<String>,
    source_dir: Option<String>,
) -> (r: DriverStatus)
    ensures
        r == (DriverStatus {
            package_staged: device_present || endpoint_active || *published is Some,
            device_present,
            endpoint_active,
            source_dir,
        }),
{
    DriverStatus {
        package_staged: device_present || endpoint_active || published.is_some(),
        device_present,
        endpoint_active,
        source_dir,
    }
}

// ---------------------------------------------------------------------------
// The device node
// ---------------------------------------------------------------------------

/// Whether a list of hardware ids names the card. The ids stand between NULs,
/// and their case does not matter.
pub open spec fn names_card(text: Seq<char>) -> bool {
    let entries = split(ascii_lower(text), '\0');
    exists|i: int|
        0 <= i < entries.len() && trim(#[trigger] entries[i]) == ascii_lower("Root\\FXVAD"@)
}

/// The text of a device's hardware ids, as the system stores them.
pub open spec fn hardware_ids(property: Seq<u8>) -> Seq<char> {
    utf16_text(le_units(property))
}

/// Whether a device with these hardware ids is the card.
pub fn is_card_node(property: &[u8]) -> (r: bool)
    ensures
        r == names_card(hardware_ids(property@)),
{
    let units = bytes_to_units(property);
    let text = from_utf16_lossy(units.as_slice());
    let chars = chars_of(text.as_str());
    let lowered = to_ascii_lower(chars.as_slice());
    let entries = split_chars(lowered.as_slice(), '\0');
    let id = chars_of(HARDWARE_ID);
    let wanted = to_ascii_lower(id.as_slice());
    let ghost all = rows(entries@);
    let mut i: usize = 0;
    while i < entries.len()
        invariant
            i <= entries@.len(),
            all == rows(entries@),
            all == split(ascii_lower(hardware_ids(property@)), '\0'),
            wanted@ == ascii_lower("Root\\FXVAD"@),
            forall|j: int| 0 <= j < i ==> trim(#[trigger] all[j]) != wanted@,
        decreases entries@.len() - i,
    {
        assert(all[i as int] == entries@[i as int]@);
        if same_chars(trimmed(entries[i].as_slice()), wanted.as_slice()) {
            return true;
        }
        i = i + 1;
    }
    false
}

/// Whether a property of this size is worth reading: not empty, and not
/// implausibly large.
pub fn is_readable_size(needed: u32) -> (r: bool)
    ensures
        r == (0 < needed <= 8192),
{
    0 < needed && needed <= 8192
}

/// Whether the card's device node exists among the devices with these hardware
/// ids. A device whose property could not be read has none.
///
/// Matched on the hardware id rather than on the instance: the instance may
/// have been named by the system.
pub fn root_device_exists(properties: &Vec<Option<Vec<u8>>>) -> (r: bool)
    ensures
        r == exists|i: int|
            0 <= i < properties@.len() && (#[trigger] properties@[i]) is Some && names_card(
                hardware_ids(properties@[i]->0@),
            ),
{
    let mut i: usize = 0;
    while i < properties.len()
        invariant
            i <= properties@.len(),
            forall|j: int|
                0 <= j < i ==> !((#[trigger] properties@[j]) is Some && names_card(
                    hardware_ids(properties@[j]->0@),
                )),
        decreases properties@.len() - i,
    {
        if let Some(bytes) = &properties[i] {
            if is_card_node(bytes.as_slice()) {
                assert(properties@[i as int] is Some);
                return true;
            }
        }
        i = i + 1;
    }
    false
}

/// The hardware id as a list of one: the text, its terminator, and the
/// terminator of the list.
pub open spec fn multi_sz(id: Seq<char>) -> Seq<u8> {
    le_bytes(utf16(id).push(0).push(0))
}

/// The bytes of the hardware id that a new device node gets.
pub fn hardware_id_bytes() -> (r: Vec<u8>)
    ensures
        r@ == multi_sz("Root\\FXVAD"@),
{
    let mut units = encode_utf16(HARDWARE_ID);
    units.push(0);
    units.push(0);
    units_to_bytes(units.as_slice())
}

/// The device node that is created is found again.
pub proof fn a_created_node_is_found()
    ensures
        names_card(hardware_ids(multi_sz("Root\\FXVAD"@))),
{
    let id = "Root\\FXVAD"@;
    reveal_strlit("Root\\FXVAD");
    let units = utf16(id).push(0).push(0);
    le_bytes_round_trip(units);
    let ended = id.push('\0').push('\0');
    assert(ended.drop_last() =~= id.push('\0'));
    assert(id.push('\0').drop_last() =~= id);
    assert(utf16(id.push('\0')) =~= utf16(id).push(0));
    assert(utf16(ended) =~= units);
    utf16_round_trips(ended);
    let text = ascii_lower(ended);
    let entries = split(text, '\0');
    let wanted = ascii_lower(id);
    assert(text.len() == id.len() + 2);
    assert forall|j: int| 0 <= j < id.len() implies text[j] != '\0' by {
        assert(ended[j] == id[j]);
    }
    lemma_index_of(text, '\0', id.len() as int);
    assert(entries[0] =~= wanted);
    assert(wanted[0] == 'r' && wanted.last() == 'd');
    assert(trim(wanted) == wanted);
}

// ---------------------------------------------------------------------------
// The driver package
// ---------------------------------------------------------------------------

/// What follows the first colon of each line that has one.
pub open spec fn block_values(lines: Seq<Seq<char>>) -> Seq<Seq<char>>
    decreases lines.len(),
{
    if lines.len() == 0 {
        Seq::empty()
    } else {
        let before = block_values(lines.drop_last());
        match split_once(lines.last(), ':') {
            Some((_, value)) => before.push(trim(value)),
            None => before,
        }
    }
}

/// Whether a value is a published package name: `oemN.inf`, with a number of
/// one digit or more.
pub open spec fn is_published_name(value: Seq<char>) -> bool {
    let lowered = ascii_lower(value);
    encode_utf8(value).len() > 7 && starts_with(lowered, "oem"@) && ends_with(lowered, ".inf"@)
}

/// The first published package name among the values of a block.
pub open spec fn first_published(values: Seq<Seq<char>>) -> Option<Seq<char>>
    decreases values.len(),
{
    if values.len() == 0 {
        None
    } else if is_published_name(values[0]) {
        Some(values[0])
    } else {
        first_published(values.drop_first())
    }
}

/// Whether a block is about our driver.
pub open spec fn is_our_block(values: Seq<Seq<char>>) -> bool {
    exists|i: int|
        0 <= i < values.len() && same_ignoring_case(#[trigger] values[i], "fxvad.inf"@)
}

/// The published name that a block gives for our driver.
pub open spec fn published_in_block(block: Seq<char>) -> Option<Seq<char>> {
    let values = block_values(split(block, '\n'));
    if is_our_block(values) {
        first_published(values)
    } else {
        None
    }
}

/// The first published name that any of the blocks gives.
pub open spec fn published_in_blocks(blocks: Seq<Seq<char>>) -> Option<Seq<char>>
    decreases blocks.len(),
{
    if blocks.len() == 0 {
        None
    } else if published_in_block(blocks[0]) is Some {
        published_in_block(blocks[0])
    } else {
        published_in_blocks(blocks.drop_first())
    }
}

/// The blocks of each part, one after another.
pub open spec fn blocks_of(parts: Seq<Seq<char>>) -> Seq<Seq<char>>
    decreases parts.len(),
{
    if parts.len() == 0 {
        Seq::empty()
    } else {
        blocks_of(parts.drop_last()) + split_by(parts.last(), "\r\n\r\n"@)
    }
}

/// The published name of our driver in a listing, whose blocks are separated
/// by empty lines.
pub open spec fn published_in_listing(text: Seq<char>) -> Option<Seq<char>> {
    published_in_blocks(blocks_of(split_by(text, "\n\n"@)))
}

fn values_of(block: &[char]) -> (r: Vec<Vec<char>>)
    ensures
        rows(r@) == block_values(split(block@, '\n')),
{
    let lines = split_chars(block, '\n');
    let ghost all = rows(lines@);
    let mut out: Vec<Vec<char>> = Vec::new();
    let mut i: usize = 0;
    assert(rows(out@) =~= block_values(all.take(0)));
    while i < lines.len()
        invariant
            i <= lines@.len(),
            all == rows(lines@),
            rows(out@) == block_values(all.take(i as int)),
        decreases lines@.len() - i,
    {
        let ghost before = rows(out@);
        assert(all.take(i + 1).drop_last() =~= all.take(i as int));
        assert(all.take(i + 1).last() == lines@[i as int]@);
        if let Some((_, value)) = split_at_char(lines[i].as_slice(), ':') {
            let kept = vstd::slice::slice_to_vec(trimmed(value));
            out.push(kept);
            assert(rows(out@) =~= before.push(kept@));
        }
        i = i + 1;
    }
    assert(all.take(i as int) =~= all);
    out
}

fn published_name(value: &[char]) -> (r: bool)
    ensures
        r == is_published_name(value@),
{
    let text = string_of(value);
    let size: usize = text.as_str().as_bytes().len();
    let lowered = to_ascii_lower(value);
    let front = chars_of("oem");
    let back = chars_of(".inf");
    size > 7 && has_prefix(lowered.as_slice(), front.as_slice()) && has_suffix(
        lowered.as_slice(),
        back.as_slice(),
    )
}

fn find_in_block(block: &[char]) -> (r: Option<String>)
    ensures
        opt_text(r) == published_in_block(block@),
{
    let values = values_of(block);
    let ghost all = rows(values@);
    let ours = chars_of("fxvad.inf");
    let mut is_ours: bool = false;
    let mut i: usize = 0;
    while i < values.len()
        invariant
            i <= values@.len(),
            all == rows(values@),
            ours@ == "fxvad.inf"@,
            is_ours == exists|j: int|
                0 <= j < i && same_ignoring_case(#[trigger] all[j], "fxvad.inf"@),
        decreases values@.len() - i,
    {
        assert(all[i as int] == values@[i as int]@);
        if eq_ignoring_case(values[i].as_slice(), ours.as_slice()) {
            is_ours = true;
        }
        i = i + 1;
    }
    if !is_ours {
        return None;
    }
    let mut k: usize = 0;
    assert(all.skip(0) =~= all);
    while k < values.len()
        invariant
            k <= values@.len(),
            all == rows(values@),
            all == block_values(split(block@, '\n')),
            is_our_block(all),
            first_published(all) == first_published(all.skip(k as int)),
        decreases values@.len() - k,
    {
        assert(all.skip(k as int)[0] == values@[k as int]@);
        if published_name(values[k].as_slice()) {
            return Some(string_of(values[k].as_slice()));
        }
        assert(all.skip(k as int).drop_first() =~= all.skip(k + 1));
        k = k + 1;
    }
    None
}

/// Finds the published name of the driver package in the text of a listing.
///
/// Labels are not matched: they are localised, while the values are not.
pub fn package_name_in(text: &str) -> (r: Option<String>)
    ensures
        opt_text(r) == published_in_listing(text@),
{
    proof {
        reveal_strlit("\n\n");
        reveal_strlit("\r\n\r\n");
    }
    let chars = chars_of(text);
    let gap = chars_of("\n\n");
    let wide_gap = chars_of("\r\n\r\n");
    let parts = split_text(chars.as_slice(), gap.as_slice());
    let ghost all_parts = rows(parts@);
    let mut blocks: Vec<Vec<char>> = Vec::new();
    let mut i: usize = 0;
    assert(rows(blocks@) =~= blocks_of(all_parts.take(0)));
    while i < parts.len()
        invariant
            i <= parts@.len(),
            all_parts == rows(parts@),
            wide_gap@ == "\r\n\r\n"@,
            wide_gap@.len() > 0,
            rows(blocks@) == blocks_of(all_parts.take(i as int)),
        decreases parts@.len() - i,
    {
        let ghost before = blocks@;
        let mut more = split_text(parts[i].as_slice(), wide_gap.as_slice());
        let ghost added = more@;
        blocks.append(&mut more);
        proof {
            assert(all_parts.take(i + 1).drop_last() =~= all_parts.take(i as int));
            assert(all_parts.take(i + 1).last() == parts@[i as int]@);
            assert(rows(blocks@) =~= rows(before) + rows(added));
        }
        i = i + 1;
    }
    assert(all_parts.take(i as int) =~= all_parts);
    let ghost all = rows(blocks@);
    let mut k: usize = 0;
    assert(all.skip(0) =~= all);
    while k < blocks.len()
        invariant
            k <= blocks@.len(),
            all == rows(blocks@),
            all == blocks_of(split_by(text@, "\n\n"@)),
            published_in_blocks(all) == published_in_blocks(all.skip(k as int)),
        decreases blocks@.len() - k,
    {
        assert(all.skip(k as int)[0] == blocks@[k as int]@);
        let found = find_in_block(blocks[k].as_slice());
        if found.is_some() {
            return found;
        }
        assert(all.skip(k as int).drop_first() =~= all.skip(k + 1));
        k = k + 1;
    }
    None
}

/// The published (`oemNN.inf`) name of the driver package, if staged, from the
/// output of the tool that lists packages. Without output there is none.
pub fn published_package_name(output: &Option<Vec<u8>>) -> (r: Option<String>)
    ensures
        opt_text(r) == (match *output {
            Some(bytes) => published_in_listing(utf8_lossy(bytes@)),
            None => None,
        }),
{
    match output {
        Some(bytes) => {
            let text = from_utf8_lossy(bytes.as_slice());
            package_name_in(text.as_str())
        },
        None => None,
    }
}

// ---------------------------------------------------------------------------
// The files to install from
// ---------------------------------------------------------------------------

/// The directories in which the driver files may be: next to the executable
/// first, then in the development tree.
pub open spec fn driver_dirs(exe_dir: Option<Seq<char>>, tree: Option<Seq<char>>) -> Seq<Seq<char>> {
    (match exe_dir {
        Some(dir) => seq![
            joined_path(dir, "driver"@),
            joined_path(dir, "fxvad"@),
            joined_path(joined_path(dir, "resources"@), "fxvad"@),
            dir,
        ],
        None => Seq::empty(),
    }) + (match tree {
        Some(dir) => seq![
            joined_path(
                joined_path(
                    joined_path(
                        joined_path(
                            joined_path(joined_path(dir, ".."@), "NexBox"@),
                            "src-tauri"@,
                        ),
                        "resources"@,
                    ),
                    "binaries"@,
                ),
                "fxvad"@,
            ),
        ],
        None => Seq::empty(),
    })
}

/// Executable [`driver_dirs`].
pub fn driver_candidates(exe_dir: Option<&str>, tree: Option<&str>) -> (r: Vec<String>)
    ensures
        texts(r@) == driver_dirs(opt_str(exe_dir), opt_str(tree)),
{
    let mut out: Vec<String> = Vec::new();
    if let Some(dir) = exe_dir {
        out.push(join_path(dir, "driver"));
        out.push(join_path(dir, "fxvad"));
        let resources = join_path(dir, "resources");
        out.push(join_path(resources.as_str(), "fxvad"));
        out.push(dir.to_owned());
    }
    if let Some(dir) = tree {
        let a = join_path(dir, "..");
        let b = join_path(a.as_str(), "NexBox");
        let c = join_path(b.as_str(), "src-tauri");
        let d = join_path(c.as_str(), "resources");
        let e = join_path(d.as_str(), "binaries");
        out.push(join_path(e.as_str(), "fxvad"));
    }
    assert(texts(out@) =~= driver_dirs(opt_str(exe_dir), opt_str(tree)));
    out
}

/// Which of the driver files a directory holds.
#[derive(Debug, Clone, Copy, PartialEq, Eq, Structural)]
pub struct DriverFiles {
    pub inf: bool,
    pub sys: bool,
    pub cat: bool,
}

/// The first directory that holds all of the driver files.
pub open spec fn first_complete(dirs: Seq<String>, files: Seq<DriverFiles>) -> Option<Seq<char>>
    decreases dirs.len(),
{
    if dirs.len() == 0 {
        None
    } else if files[0].inf && files[0].sys && files[0].cat {
        Some(dirs[0]@)
    } else {
        first_complete(dirs.drop_first(), files.drop_first())
    }
}

/// Locates the directory to install from among the candidates, given what
/// each of them holds.
pub fn locate_driver_files(dirs: &Vec<String>, files: &Vec<DriverFiles>) -> (r: Option<String>)
    requires
        dirs@.len() == files@.len(),
    ensures
        opt_text(r) == first_complete(dirs@, files@),
{
    let mut i: usize = 0;
    assert(dirs@.skip(0) =~= dirs@);
    assert(files@.skip(0) =~= files@);
    while i < dirs.len()
        invariant
            i <= dirs@.len() == files@.len(),
            first_complete(dirs@, files@) == first_complete(
                dirs@.skip(i as int),
                files@.skip(i as int),
            ),
        decreases dirs@.len() - i,
    {
        if files[i].inf && files[i].sys && files[i].cat {
            return Some(dirs[i].clone());
        }
        assert(dirs@.skip(i as int).drop_first() =~= dirs@.skip(i + 1));
        assert(files@.skip(i as int).drop_first() =~= files@.skip(i + 1));
        i = i + 1;
    }
    None
}

// ---------------------------------------------------------------------------
// Installing and removing
// ---------------------------------------------------------------------------

/// Result of an install attempt.
#[derive(Debug, Clone, Copy, PartialEq, Eq, Structural)]
pub enum InstallOutcome {
    /// The card is now active.
    Installed,
    /// It was already active; nothing was done.
    AlreadyInstalled,
    /// The driver package was staged but the endpoint has not appeared yet.
    StagedPendingRescan,
}

/// What is known while installing. What has not been done or read yet is
/// missing.
#[derive(Debug)]
pub struct InstallFacts {
    pub elevated: bool,
    /// Where the driver files are.
    pub source_dir: Option<String>,
    /// Whether the card was active before.
    pub card_before: bool,
    /// The default endpoint before anything was installed.
    pub default_before: Option<String>,
    /// What staging the package came to.
    pub staged: Option<Result<(), String>>,
    /// Whether the device node exists after staging.
    pub node_present: Option<bool>,
    /// What creating the device node came to.
    pub created: Option<Result<(), String>>,
    /// The default endpoint after the card was installed: `None` until it was
    /// read, `Some(None)` where it could not be.
    pub default_after: Option<Option<DeviceInfo>>,
    /// Whether restoring the default was attempted.
    pub restored: bool,
    /// Whether the card is active now.
    pub card_after: Option<bool>,
}

/// What to do next while installing.
#[derive(Debug, PartialEq, Eq)]
pub enum InstallStep {
    /// Stage the package with this file.
    Stage(String),
    /// Look whether the device node exists.
    LookForNode,
    /// Create the device node.
    CreateNode,
    /// Read the default endpoint.
    ReadDefault,
    /// Make this endpoint the default again.
    Restore(String),
    /// Look whether the card is active.
    LookForCard,
    /// Finished.
    Done(InstallOutcome),
    /// Given up, for this reason.
    Failed(String),
}

/// Whether Windows moved the default to the card while it was installed.
pub open spec fn default_was_moved(
    before: Option<Seq<char>>,
    after: Option<DeviceInfo>,
) -> bool {
    before is Some && after is Some && after->0.id@ != before->0 && after->0.is_virtual
}

/// Whether `step` is the next one.
pub open spec fn install_step(k: InstallFacts, step: InstallStep) -> bool {
    if !k.elevated {
        step is Failed && step->Failed_0@
            == "administrator rights are required to install the driver"@
    } else if k.source_dir is None {
        step is Failed && step->Failed_0@
            == "could not find fxvad.inf/fxvad.sys/fxvadntamd64.cat next to the executable"@
    } else if k.card_before {
        step == InstallStep::Done(InstallOutcome::AlreadyInstalled)
    } else {
        match k.staged {
            None => step is Stage && step->Stage_0@ == joined_path(
                k.source_dir->0@,
                "fxvad.inf"@,
            ),
            Some(Err(reason)) => step == InstallStep::Failed(reason),
            Some(Ok(_)) => match (k.node_present, k.created) {
                (None, _) => step is LookForNode,
                (Some(false), None) => step is CreateNode,
                (Some(false), Some(Err(reason))) => step == InstallStep::Failed(reason),
                _ => match (k.default_before, k.default_after) {
                    (Some(_), None) => step is ReadDefault,
                    _ => if k.default_after is Some && default_was_moved(
                        opt_text(k.default_before),
                        k.default_after->0,
                    ) && !k.restored {
                        step is Restore && step->Restore_0@ == k.default_before->0@
                    } else {
                        match k.card_after {
                            None => step is LookForCard,
                            Some(active) => step == InstallStep::Done(
                                if active {
                                    InstallOutcome::Installed
                                } else {
                                    InstallOutcome::StagedPendingRescan
                                },
                            ),
                        }
                    },
                },
            },
        }
    }
}

/// Installs the virtual sound card, restoring the previous default endpoint
/// afterwards: tells the next step from what is known.
///
/// A process without administrator rights gets an error rather than a prompt
/// behind the user's back.
pub fn install_with_default_guard(k: &InstallFacts) -> (r: InstallStep)
    ensures
        install_step(*k, r),
{
    if !k.elevated {
        return InstallStep::Failed(
            "administrator rights are required to install the driver".to_owned(),
        );
    }
    let dir = match &k.source_dir {
        Some(dir) => dir,
        None => {
            return InstallStep::Failed(
                "could not find fxvad.inf/fxvad.sys/fxvadntamd64.cat next to the executable".to_owned(),
            );
        },
    };
    if k.card_before {
        return InstallStep::Done(InstallOutcome::AlreadyInstalled);
    }
    match &k.staged {
        None => {
            return InstallStep::Stage(join_path(dir.as_str(), DRIVER_INF_NAME));
        },
        Some(Err(reason)) => {
            return InstallStep::Failed(reason.clone());
        },
        Some(Ok(_)) => {},
    }
    match k.node_present {
        None => {
            return InstallStep::LookForNode;
        },
        Some(true) => {},
        Some(false) => match &k.created {
            None => {
                return InstallStep::CreateNode;
            },
            Some(Err(reason)) => {
                return InstallStep::Failed(reason.clone());
            },
            Some(Ok(_)) => {},
        },
    }
    if let Some(previous) = &k.default_before {
        match &k.default_after {
            None => {
                return InstallStep::ReadDefault;
            },
            Some(Some(current)) => {
                if !same_text(current.id.as_str(), previous.as_str()) && current.is_virtual
                    && !k.restored {
                    return InstallStep::Restore(previous.clone());
                }
            },
            Some(None) => {},
        }
    }
    match k.card_after {
        None => InstallStep::LookForCard,
        Some(true) => InstallStep::Done(InstallOutcome::Installed),
        Some(false) => InstallStep::Done(InstallOutcome::StagedPendingRescan),
    }
}

/// An installation in which Windows moved the default to the card does not
/// finish before restoring the previous default has been attempted.
pub proof fn the_default_is_guarded(k: InstallFacts, step: InstallStep)
    requires
        install_step(k, step),
        step is Done,
        !k.card_before,
        k.default_before is Some,
    ensures
        k.default_after is Some,
        default_was_moved(opt_text(k.default_before), k.default_after->0) ==> k.restored,
{
}

/// Nothing on the machine is changed without administrator rights, and nothing
/// once the card is already there.
pub proof fn nothing_is_installed_without_need(k: InstallFacts, step: InstallStep)
    requires
        install_step(k, step),
        !k.elevated || k.card_before,
    ensures
        !(step is Stage) && !(step is CreateNode) && !(step is Restore),
{
}

/// What is known while removing.
#[derive(Debug)]
pub struct RemoveFacts {
    pub elevated: bool,
    /// The default endpoint, where it could be read.
    pub default_now: Option<DeviceInfo>,
    /// The active render endpoints, where they could be listed.
    pub devices: Option<Vec<DeviceInfo>>,
    /// Whether moving the default to a real device was attempted.
    pub moved: bool,
    /// The published name of the package: `None` until it was looked for.
    pub package: Option<Option<String>>,
    /// What removing the package came to.
    pub removed: Option<Result<(), String>>,
}

/// What to do next while removing.
#[derive(Debug, PartialEq, Eq)]
pub enum RemoveStep {
    /// Make this endpoint the default.
    Restore(String),
    /// Look for the published name of the package.
    FindPackage,
    /// Remove the package with this name.
    Remove(String),
    /// Finished.
    Done,
    /// Given up, for this reason.
    Failed(String),
}

/// The endpoint that the default has to move to before the card goes away.
pub open spec fn safe_output(
    default_now: Option<DeviceInfo>,
    devices: Option<Vec<DeviceInfo>>,
) -> Option<Seq<char>> {
    if default_now is Some && default_now->0.is_virtual && devices is Some {
        match find_physical(devices->0@) {
            Some(physical) => Some(physical.id@),
            None => None,
        }
    } else {
        None
    }
}

/// Whether `step` is the next one.
pub open spec fn remove_step(k: RemoveFacts, step: RemoveStep) -> bool {
    if !k.elevated {
        step is Failed && step->Failed_0@
            == "administrator rights are required to remove the driver"@
    } else if safe_output(k.default_now, k.devices) is Some && !k.moved {
        step is Restore && step->Restore_0@ == safe_output(k.default_now, k.devices)->0
    } else {
        match k.package {
            None => step is FindPackage,
            Some(None) => step is Failed && step->Failed_0@
                == "no staged FxSound driver package found"@,
            Some(Some(name)) => match k.removed {
                None => step is Remove && step->Remove_0@ == name@,
                Some(Ok(_)) => step is Done,
                Some(Err(reason)) => step == RemoveStep::Failed(reason),
            },
        }
    }
}

/// Removes the virtual sound card and its driver package: tells the next step
/// from what is known.
///
/// The default endpoint goes to a real device first, otherwise Windows would
/// be left pointing at an endpoint that is about to disappear.
pub fn uninstall(k: &RemoveFacts) -> (r: RemoveStep)
    ensures
        remove_step(*k, r),
{
    if !k.elevated {
        return RemoveStep::Failed(
            "administrator rights are required to remove the driver".to_owned(),
        );
    }
    if !k.moved {
        if let Some(current) = &k.default_now {
            if current.is_virtual {
                if let Some(devices) = &k.devices {
                    if let Some(physical) = find_physical_device(devices) {
                        return RemoveStep::Restore(physical.id);
                    }
                }
            }
        }
    }
    match &k.package {
        None => RemoveStep::FindPackage,
        Some(None) => RemoveStep::Failed("no staged FxSound driver package found".to_owned()),
        Some(Some(name)) => match &k.removed {
            None => RemoveStep::Remove(name.clone()),
            Some(Ok(_)) => RemoveStep::Done,
            Some(Err(reason)) => RemoveStep::Failed(reason.clone()),
        },
    }
}

/// The package is not removed while the output is on the card and there is a
/// real device that it has not been moved to.
pub proof fn the_output_is_moved_first(k: RemoveFacts, step: RemoveStep)
    requires
        remove_step(k, step),
        step is Remove,
        safe_output(k.default_now, k.devices) is Some,
    ensures
        k.moved,
{
}

/// `ERROR_DEVINST_ALREADY_EXISTS`, as the set-up functions report it.
pub const DEVINST_ALREADY_EXISTS: i32 = -536870393;

/// The same, as the code of a set-up error.
pub const E_DEVINST_ALREADY_EXISTS: i32 = -2146500089;

/// `ERROR_ALREADY_EXISTS`, as a result code.
pub const E_ALREADY_EXISTS: i32 = -2147024713;

/// Whether `r` is the right judgement of a creation of the device node.
pub open spec fn judges_creation(
    outcome: Result<(), (i32, String)>,
    r: Result<(), String>,
) -> bool {
    match outcome {
        Ok(_) => r is Ok,
        Err((code, message)) => if code == -536870393 || code == -2146500089 || code
            == -2147024713 {
            r is Ok
        } else {
            r is Err && r->Err_0@ == "could not create the Root\\FXVAD device node: "@ + message@
        },
    }
}

/// Judges the creation of the device node. Errors that mean "already there"
/// are none; with others comes the code and the system's message.
pub fn create_root_device(outcome: Result<(), (i32, String)>) -> (r: Result<(), String>)
    ensures
        judges_creation(outcome, r),
{
    match outcome {
        Ok(_) => Ok(()),
        Err((code, message)) => {
            if code == DEVINST_ALREADY_EXISTS || code == E_DEVINST_ALREADY_EXISTS || code
                == E_ALREADY_EXISTS {
                return Ok(());
            }
            let mut out: String = "could not create the Root\\FXVAD device node: ".to_owned();
            out.append(message.as_str());
            Err(out)
        },
    }
}

// ---------------------------------------------------------------------------
// Running tools
// ---------------------------------------------------------------------------

/// What running a tool came to.
#[derive(Debug)]
pub enum ToolRun {
    /// It could not be started; with the system's message.
    NotStarted(String),
    /// It ran and ended.
    Ended { success: bool, code: Option<i32>, stdout: Vec<u8>, stderr: Vec<u8> },
}

/// Whether `r` is the right judgement of the run of a privileged helper.
pub open spec fn judges_run(
    program: Seq<char>,
    elevated: bool,
    run: ToolRun,
    r: Result<String, String>,
) -> bool {
    if !elevated {
        r is Err && r->Err_0@ == program + " must run elevated"@
    } else {
        match run {
            ToolRun::NotStarted(err) => r is Err && r->Err_0@ == "could not run "@ + program + ": "@
                + err@,
            ToolRun::Ended { success, code, stdout, stderr } => if success {
                r is Ok && r->Ok_0@ == utf8_lossy(stdout@) + utf8_lossy(stderr@)
            } else {
                r is Err && r->Err_0@ == program + " exited with "@ + signed_decimal(
                    match code {
                        Some(n) => n as int,
                        None => -1,
                    },
                ) + ": "@ + trim(utf8_lossy(stdout@)) + trim(utf8_lossy(stderr@))
            },
        }
    }
}

/// Judges the run of a privileged helper and collects its output.
pub fn run_elevated_tool(program: &str, elevated: bool, run: &ToolRun) -> (r: Result<
    String,
    String,
>)
    ensures
        judges_run(program@, elevated, *run, r),
{
    if !elevated {
        let mut out: String = program.to_owned();
        out.append(" must run elevated");
        return Err(out);
    }
    match run {
        ToolRun::NotStarted(err) => {
            let mut out: String = "could not run ".to_owned();
            out.append(program);
            out.append(": ");
            out.append(err.as_str());
            Err(out)
        },
        ToolRun::Ended { success, code, stdout, stderr } => {
            let out_text = from_utf8_lossy(stdout.as_slice());
            let err_text = from_utf8_lossy(stderr.as_slice());
            if *success {
                let mut out: String = out_text;
                out.append(err_text.as_str());
                return Ok(out);
            }
            let shown: i64 = match code {
                Some(n) => *n as i64,
                None => -1,
            };
            let number = to_signed_decimal(shown);
            let a = chars_of(out_text.as_str());
            let b = chars_of(err_text.as_str());
            let first = string_of(trimmed(a.as_slice()));
            let second = string_of(trimmed(b.as_slice()));
            let mut out: String = program.to_owned();
            out.append(" exited with ");
            out.append(number.as_str());
            out.append(": ");
            out.append(first.as_str());
            out.append(second.as_str());
            Err(out)
        },
    }
}

/// One argument of a command line. One with a space in it is quoted, so that
/// it survives.
pub open spec fn quoted_argument(arg: Seq<char>) -> Seq<char> {
    if arg.contains(' ') {
        "\""@ + arg + "\""@
    } else {
        arg
    }
}

/// Arguments joined to a command line.
pub open spec fn command_line(args: Seq<String>) -> Seq<char>
    decreases args.len(),
{
    if args.len() == 0 {
        Seq::empty()
    } else if args.len() == 1 {
        quoted_argument(args[0]@)
    } else {
        command_line(args.drop_last()) + " "@ + quoted_argument(args.last()@)
    }
}

fn quote_argument(arg: &str) -> (r: String)
    ensures
        r@ == quoted_argument(arg@),
{
    let chars = chars_of(arg);
    let at = crate::text::find_char(chars.as_slice(), ' ');
    proof {
        crate::text::lemma_index_of_bound(arg@, ' ');
        if at < arg@.len() {
            assert(arg@[at as int] == ' ');
        }
    }
    if at < chars.len() {
        let mut out: String = "\"".to_owned();
        out.append(arg);
        out.append("\"");
        out
    } else {
        arg.to_owned()
    }
}

/// The command line with which the executable is relaunched elevated.
pub fn relaunch_parameters(args: &Vec<String>) -> (r: String)
    ensures
        r@ == command_line(args@),
{
    let mut out: String = String::new();
    let mut i: usize = 0;
    while i < args.len()
        invariant
            i <= args@.len(),
            out@ == command_line(args@.take(i as int)),
        decreases args@.len() - i,
    {
        assert(args@.take(i + 1).drop_last() =~= args@.take(i as int));
        let shown = quote_argument(args[i].as_str());
        if i > 0 {
            out.append(" ");
        }
        out.append(shown.as_str());
        assert(i == 0 ==> out@ =~= shown@);
        i = i + 1;
    }
    assert(args@.take(i as int) =~= args@);
    out
}

/// Judges the answer to a relaunch: a value of at most 32 is a failure.
pub fn relaunch_elevated(code: usize) -> (r: Result<(), String>)
    ensures
        code > 32 ==> r is Ok,
        code <= 32 ==> r is Err && r->Err_0@
            == "could not relaunch elevated (ShellExecuteW returned "@ + decimal(code as nat)
            + "); the user may have declined the prompt"@,
{
    if code <= 32 {
        let mut out: String = "could not relaunch elevated (ShellExecuteW returned ".to_owned();
        let number = to_decimal(code as u64);
        out.append(number.as_str());
        out.append("); the user may have declined the prompt");
        return Err(out);
    }
    Ok(())
}

/// What an elevated helper invocation is for.
#[derive(Debug, Clone, Copy, PartialEq, Eq, Structural)]
pub enum ElevatedTask {
    Install,
    Remove,
}

/// Whether an argument is among those given.
pub open spec fn has_argument(args: Seq<String>, wanted: Seq<char>) -> bool {
    exists|i: int| 0 <= i < args.len() && (#[trigger] args[i])@ == wanted
}

/// Handles the elevated-relaunch entry points: tells what the process was
/// started to do before it exits, if it is a helper invocation. Installing
/// goes before removing.
pub fn handle_elevated_arguments(args: &Vec<String>) -> (r: Option<ElevatedTask>)
    ensures
        r == (if has_argument(args@, "--install-driver"@) {
            Some(ElevatedTask::Install)
        } else if has_argument(args@, "--remove-driver"@) {
            Some(ElevatedTask::Remove)
        } else {
            None
        }),
{
    if crate::device::holds_id(args, ARG_INSTALL_DRIVER) {
        return Some(ElevatedTask::Install);
    }
    if crate::device::holds_id(args, ARG_REMOVE_DRIVER) {
        return Some(ElevatedTask::Remove);
    }
    None
}

// ---------------------------------------------------------------------------
// What holds of the driver
// ---------------------------------------------------------------------------

/// The summary goes by what works: an endpoint says it all, then a device node,
/// then a package; and the four answers are told apart.
pub proof fn the_summary_goes_by_what_works(a: DriverStatus, b: DriverStatus)
    ensures
        ({
            let shown = |s: DriverStatus|
                status_summary(s.package_staged, s.device_present, s.endpoint_active);
            let works = |s: DriverStatus|
                if s.endpoint_active {
                    3int
                } else if s.device_present {
                    2
                } else if s.package_staged {
                    1
                } else {
                    0
                };
            shown(a) == shown(b) <==> works(a) == works(b)
        }),
{
    reveal_strlit("virtual sound card active");
    reveal_strlit("device present but no audio endpoint (driver not started?)");
    reveal_strlit("driver staged, device not created");
    reveal_strlit("virtual sound card not installed");
    assert("virtual sound card active"@.len() == 25);
    assert("device present but no audio endpoint (driver not started?)"@.len() == 58);
    assert("driver staged, device not created"@.len() == 33);
    assert("virtual sound card not installed"@.len() == 32);
}

/// The card is recognised wherever its id stands among others, and in whatever
/// case it is written.
pub proof fn the_card_is_recognised_among_others(
    front: Seq<char>,
    id: Seq<char>,
    back: Seq<char>,
)
    requires
        same_ignoring_case(id, HARDWARE_ID@),
    ensures
        names_card(id),
        names_card(id + seq!['\0'] + back),
        names_card(front + seq!['\0'] + id),
        names_card(front + seq!['\0'] + id + seq!['\0'] + back),
{
    let wanted = ascii_lower("Root\\FXVAD"@);
    lemma_card_id(id);
    let low = ascii_lower(id);
    a_text_without_the_character_is_one_piece(low, '\0');
    assert(split(low, '\0')[0] == low);
    let f = ascii_lower(front);
    let b = ascii_lower(back);
    let nul = seq!['\0'];
    assert(ascii_lower(id + nul + back) =~= low + nul + b);
    assert(ascii_lower(front + nul + id) =~= f + nul + low);
    assert(ascii_lower(front + nul + id + nul + back) =~= f + nul + (low + nul + b));
    splitting_goes_piece_by_piece(low, b, '\0');
    splitting_goes_piece_by_piece(f, low, '\0');
    splitting_goes_piece_by_piece(f, low + nul + b, '\0');
    let n = split(f, '\0').len() as int;
    assert((split(low, '\0') + split(b, '\0'))[0] == low);
    assert((split(f, '\0') + split(low, '\0'))[n] == low);
    assert((split(f, '\0') + (split(low, '\0') + split(b, '\0')))[n] == low);
}

proof fn lemma_card_id(id: Seq<char>)
    requires
        same_ignoring_case(id, HARDWARE_ID@),
    ensures
        trim(ascii_lower(id)) == ascii_lower("Root\\FXVAD"@),
        ascii_lower(id) == ascii_lower("Root\\FXVAD"@),
        !ascii_lower(id).contains('\0'),
{
    let low = ascii_lower(id);
    assert(low == ascii_lower("Root\\FXVAD"@));
    reveal_strlit("Root\\FXVAD");
    assert(low.len() == 10);
    assert(low[0] == 'r' && low.last() == 'd');
    assert forall|i: int| 0 <= i < low.len() implies low[i] != '\0' by {
        assert(low[i] == lower_char("Root\\FXVAD"@[i]));
    }
    trimmed_text_stays(low);
}

/// An id by itself is the card's only if it is the whole of the card's id, white
/// space around it aside.
pub proof fn other_ids_are_not_the_card(id: Seq<char>)
    requires
        !id.contains('\0'),
    ensures
        names_card(id) <==> trim(ascii_lower(id)) == ascii_lower(HARDWARE_ID@),
{
    let low = ascii_lower(id);
    assert forall|i: int| 0 <= i < low.len() implies low[i] != '\0' by {
        assert(id.contains(id[i]));
        assert(low[i] == lower_char(id[i]));
    }
    a_text_without_the_character_is_one_piece(low, '\0');
    assert(split(low, '\0')[0] == low);
}

/// A package is published under `oem`, a number and `.inf`, in whatever case;
/// what begins or ends otherwise is no such name.
pub proof fn published_names_are_recognised(number: Seq<char>, other: Seq<char>)
    requires
        number.len() > 0,
        all_digits(number),
    ensures
        is_published_name("oem"@ + number + ".inf"@),
        is_published_name("OEM"@ + number + ".INF"@),
        !starts_with(ascii_lower(other), "oem"@) ==> !is_published_name(other),
        !ends_with(ascii_lower(other), ".inf"@) ==> !is_published_name(other),
        encode_utf8(other).len() <= 7 ==> !is_published_name(other),
{
    reveal_strlit("oem");
    reveal_strlit("OEM");
    reveal_strlit(".inf");
    reveal_strlit(".INF");
    let a = "oem"@ + number + ".inf"@;
    let b = "OEM"@ + number + ".INF"@;
    assert(ascii_lower(a).take(3) =~= "oem"@);
    assert(ascii_lower(b).take(3) =~= "oem"@);
    assert(ascii_lower(a).skip(a.len() - 4) =~= ".inf"@);
    assert(ascii_lower(b).skip(b.len() - 4) =~= ".inf"@);
    assert forall|i: int| 0 <= i < a.len() implies (a[i] as u32) < 128 by {
        if 3 <= i < 3 + number.len() {
            assert(a[i] == number[i - 3]);
            assert(is_digit(number[i - 3]));
        }
    }
    assert forall|i: int| 0 <= i < b.len() implies (b[i] as u32) < 128 by {
        if 3 <= i < 3 + number.len() {
            assert(b[i] == number[i - 3]);
            assert(is_digit(number[i - 3]));
        }
    }
    assert(vstd::utf8::is_ascii_chars(a));
    assert(vstd::utf8::is_ascii_chars(b));
    vstd::utf8::is_ascii_chars_encode_utf8(a);
    vstd::utf8::is_ascii_chars_encode_utf8(b);
}

/// A line gives what stands behind its first colon, whatever its label says and
/// in whatever language; a line without one gives nothing.
pub proof fn labels_are_passed_over(
    lines: Seq<Seq<char>>,
    label: Seq<char>,
    value: Seq<char>,
    plain: Seq<char>,
)
    requires
        !label.contains(':'),
        !plain.contains(':'),
    ensures
        block_values(lines.push(label + seq![':'] + value)) == block_values(lines).push(
            trim(value),
        ),
        block_values(lines.push(plain)) == block_values(lines),
{
    let line = label + seq![':'] + value;
    assert(lines.push(line).drop_last() =~= lines);
    assert(lines.push(plain).drop_last() =~= lines);
    assert forall|j: int| 0 <= j < label.len() implies line[j] != ':' by {
        assert(line[j] == label[j]);
        assert(label.contains(label[j]));
    }
    lemma_index_of(line, ':', label.len() as int);
    assert(line.skip((label.len() + 1) as int) =~= value);
    splitting_once_is_at_the_first(plain, ':');
}

/// Of several values the first that is a published name is taken.
pub proof fn the_first_published_name_is_taken(values: Seq<Seq<char>>, k: int)
    requires
        0 <= k < values.len(),
        is_published_name(values[k]),
        forall|j: int| 0 <= j < k ==> !is_published_name(#[trigger] values[j]),
    ensures
        first_published(values) == Some(values[k]),
    decreases values.len(),
{
    if k > 0 {
        let rest = values.drop_first();
        assert forall|j: int| 0 <= j < k - 1 implies !is_published_name(#[trigger] rest[j]) by {
            assert(rest[j] == values[j + 1]);
        }
        the_first_published_name_is_taken(rest, k - 1);
    }
}

/// A block that names our file and, in front of it, the name that it was
/// published under gives that name, whatever the labels are.
pub proof fn a_block_gives_the_published_name(
    first: Seq<char>,
    published: Seq<char>,
    second: Seq<char>,
    file: Seq<char>,
)
    requires
        !first.contains(':') && !first.contains('\n'),
        !second.contains(':') && !second.contains('\n'),
        !published.contains('\n') && !file.contains('\n'),
        is_published_name(trim(published)),
        same_ignoring_case(trim(file), DRIVER_INF_NAME@),
    ensures
        published_in_block(
            (first + seq![':'] + published) + seq!['\n'] + (second + seq![':'] + file),
        ) == Some(trim(published)),
{
    let a = first + seq![':'] + published;
    let b = second + seq![':'] + file;
    lemma_line_has_no_break(first, published);
    lemma_line_has_no_break(second, file);
    splitting_goes_piece_by_piece(a, b, '\n');
    a_text_without_the_character_is_one_piece(a, '\n');
    a_text_without_the_character_is_one_piece(b, '\n');
    let lines = split(a + seq!['\n'] + b, '\n');
    let none = Seq::<Seq<char>>::empty();
    assert(lines =~= none.push(a).push(b));
    labels_are_passed_over(none, first, published, Seq::empty());
    labels_are_passed_over(none.push(a), second, file, Seq::empty());
    let values = block_values(lines);
    assert(values =~= seq![trim(published), trim(file)]);
    assert(values[0] == trim(published) && values[1] == trim(file));
    assert(is_our_block(values));
    the_first_published_name_is_taken(values, 0);
}

proof fn lemma_line_has_no_break(label: Seq<char>, value: Seq<char>)
    requires
        !label.contains('\n'),
        !value.contains('\n'),
    ensures
        !(label + seq![':'] + value).contains('\n'),
{
    let line = label + seq![':'] + value;
    assert forall|j: int| 0 <= j < line.len() implies line[j] != '\n' by {
        if j < label.len() {
            assert(line[j] == label[j]);
            assert(label.contains(label[j]));
        } else if j > label.len() {
            assert(line[j] == value[j - label.len() - 1]);
            assert(value.contains(value[j - label.len() - 1]));
        }
    }
}

/// A block that does not name our file gives nothing, whatever else it names.
pub proof fn other_blocks_give_nothing(block: Seq<char>)
    requires
        forall|i: int|
            0 <= i < block_values(split(block, '\n')).len() ==> !same_ignoring_case(
                #[trigger] block_values(split(block, '\n'))[i],
                DRIVER_INF_NAME@,
            ),
    ensures
        published_in_block(block) is None,
{
}

/// Of several blocks the first that gives a name is taken.
pub proof fn the_first_block_is_taken(blocks: Seq<Seq<char>>, k: int)
    requires
        0 <= k < blocks.len(),
        published_in_block(blocks[k]) is Some,
        forall|j: int| 0 <= j < k ==> published_in_block(#[trigger] blocks[j]) is None,
    ensures
        published_in_blocks(blocks) == published_in_block(blocks[k]),
    decreases blocks.len(),
{
    if k > 0 {
        let rest = blocks.drop_first();
        assert forall|j: int| 0 <= j < k - 1 implies published_in_block(#[trigger] rest[j])
            is None by {
            assert(rest[j] == blocks[j + 1]);
        }
        the_first_block_is_taken(rest, k - 1);
    }
}

/// A listing without any empty line is one block.
pub proof fn a_listing_without_gaps_is_one_block(text: Seq<char>)
    requires
        !occurs(text, "\n\n"@),
        !occurs(text, "\r\n\r\n"@),
    ensures
        published_in_listing(text) == published_in_block(text),
{
    the_first_occurrence_is_first(text, "\n\n"@);
    the_first_occurrence_is_first(text, "\r\n\r\n"@);
    let parts = split_by(text, "\n\n"@);
    assert(parts =~= seq![text]);
    assert(parts.drop_last() =~= Seq::empty());
    assert(blocks_of(parts.drop_last()) =~= Seq::empty());
    let blocks = blocks_of(parts);
    assert(blocks =~= seq![text]);
    assert(blocks[0] == text);
    assert(blocks.drop_first().len() == 0);
    assert(published_in_blocks(blocks.drop_first()) is None);
}

/// The folder next to the executable is tried before the development tree, and
/// the executable's own folder is tried too.
pub proof fn the_tree_is_tried_last(dir: Seq<char>, tree: Seq<char>)
    ensures
        driver_dirs(Some(dir), Some(tree)).len() == driver_dirs(Some(dir), None).len()
            + driver_dirs(None, Some(tree)).len(),
        driver_dirs(Some(dir), None).contains(dir),
        driver_dirs(Some(dir), None).is_prefix_of(driver_dirs(Some(dir), Some(tree))),
        driver_dirs(Some(dir), None)[0] == joined_path(dir, "driver"@),
        driver_dirs(None, None).len() == 0,
        forall|i: int|
            0 <= i < driver_dirs(None, Some(tree)).len() ==> ends_with(
                #[trigger] driver_dirs(None, Some(tree))[i],
                "fxvad"@,
            ),
{
    assert(driver_dirs(Some(dir), None)[3] == dir);
    assert(is_plain_name("fxvad"@)) by {
        reveal_strlit("fxvad");
    }
    assert forall|i: int| 0 <= i < driver_dirs(None, Some(tree)).len() implies ends_with(
        #[trigger] driver_dirs(None, Some(tree))[i],
        "fxvad"@,
    ) by {
        let base = joined_path(
            joined_path(
                joined_path(joined_path(joined_path(tree, ".."@), "NexBox"@), "src-tauri"@),
                "resources"@,
            ),
            "binaries"@,
        );
        a_joined_path_ends_in_the_name(base, "fxvad"@);
        a_part_occurs(join_head(base), "fxvad"@, Seq::empty());
    }
}

/// Files are installed from the first folder that holds all three of them, and
/// from none where no folder does.
pub proof fn the_first_complete_folder_is_used(
    dirs: Seq<String>,
    files: Seq<DriverFiles>,
    k: int,
)
    requires
        dirs.len() == files.len(),
        0 <= k <= dirs.len(),
        forall|j: int|
            0 <= j < k ==> !(#[trigger] files[j]).inf || !files[j].sys || !files[j].cat,
        k < dirs.len() ==> files[k].inf && files[k].sys && files[k].cat,
    ensures
        first_complete(dirs, files) == (if k < dirs.len() {
            Some(dirs[k]@)
        } else {
            None
        }),
    decreases dirs.len(),
{
    if k > 0 {
        let rest = files.drop_first();
        assert forall|j: int| 0 <= j < k - 1 implies !(#[trigger] rest[j]).inf || !rest[j].sys
            || !rest[j].cat by {
            assert(rest[j] == files[j + 1]);
        }
        assert(!files[0].inf || !files[0].sys || !files[0].cat);
        the_first_complete_folder_is_used(dirs.drop_first(), rest, k - 1);
    }
}

/// Each step of an installation is taken only once those before it are: the
/// package is staged before a node is looked for, a node is created only where
/// there is none, the default that is put back is the one from before, and what
/// the installation came to is whether the card is there.
pub proof fn an_installation_goes_step_by_step(k: InstallFacts, step: InstallStep)
    requires
        install_step(k, step),
        k.elevated,
        k.source_dir is Some,
        !k.card_before,
    ensures
        step is Stage <==> k.staged is None,
        step is LookForNode <==> k.staged is Some && k.staged->0 is Ok && k.node_present is None,
        step is CreateNode <==> k.staged is Some && k.staged->0 is Ok && k.node_present == Some(
            false,
        ) && k.created is None,
        step is Restore ==> k.default_before is Some && step->Restore_0@ == k.default_before->0@
            && !k.restored && k.default_after is Some && k.default_after->0 is Some
            && k.default_after->0->0.is_virtual && k.default_after->0->0.id@
            != k.default_before->0@,
        step == InstallStep::Done(InstallOutcome::Installed) ==> k.card_after == Some(true),
        step == InstallStep::Done(InstallOutcome::StagedPendingRescan) ==> k.card_after == Some(
            false,
        ),
        step != InstallStep::Done(InstallOutcome::AlreadyInstalled),
        step is Failed ==> k.staged == Some(Err::<(), String>(step->Failed_0)) || k.created == Some(
            Err::<(), String>(step->Failed_0),
        ),
{
}

/// An installation fails at once without rights or without files, and has
/// nothing to do where the card is already there.
pub proof fn an_installation_needs_rights_and_files(k: InstallFacts, step: InstallStep)
    requires
        install_step(k, step),
    ensures
        !k.elevated || k.source_dir is None ==> step is Failed,
        k.elevated && k.source_dir is Some && k.card_before ==> step == InstallStep::Done(
            InstallOutcome::AlreadyInstalled,
        ),
{
}

/// A removal takes the name that was found off the machine, and ends well just
/// where that went well.
pub proof fn a_removal_goes_step_by_step(k: RemoveFacts, step: RemoveStep)
    requires
        remove_step(k, step),
    ensures
        !k.elevated ==> step is Failed,
        step is Restore ==> k.default_now is Some && k.default_now->0.is_virtual && !k.moved,
        step is Remove ==> k.package is Some && k.package->0 is Some && step->Remove_0@
            == k.package->0->0@ && k.removed is None,
        step is Done ==> k.elevated && k.package is Some && k.package->0 is Some && k.removed
            is Some && k.removed->0 is Ok,
        k.elevated && (k.moved || k.default_now is None || !k.default_now->0.is_virtual) ==> (step
            is FindPackage <==> k.package is None),
        k.elevated && k.moved && k.package == Some(None::<String>) ==> step is Failed,
        k.elevated && k.moved && k.package is Some && k.package->0 is Some && k.removed is Some ==> (
        step is Done <==> k.removed->0 is Ok),
{
}

/// A node that is already there counts as created, by whichever of the codes
/// that is said; any other error is passed on with the system's words.
pub proof fn a_node_that_is_there_counts_as_created(
    outcome: Result<(), (i32, String)>,
    r: Result<(), String>,
    code: i32,
    message: String,
)
    requires
        judges_creation(outcome, r),
    ensures
        outcome is Ok ==> r is Ok,
        outcome == Err::<(), (i32, String)>((code, message)) ==> (r is Ok <==> code
            == DEVINST_ALREADY_EXISTS || code == E_DEVINST_ALREADY_EXISTS || code
            == E_ALREADY_EXISTS),
        outcome == Err::<(), (i32, String)>((code, message)) && r is Err ==> ends_with(
            r->Err_0@,
            message@,
        ),
{
    a_part_occurs("could not create the Root\\FXVAD device node: "@, message@, Seq::empty());
}

/// A tool's output is what it wrote, first to the one stream and then to the
/// other, and only of a run that went well; every error names the tool.
pub proof fn a_tool_is_judged_by_its_run(
    program: Seq<char>,
    elevated: bool,
    run: ToolRun,
    r: Result<String, String>,
)
    requires
        judges_run(program, elevated, run, r),
    ensures
        r is Ok <==> elevated && run is Ended && run->success,
        r is Ok ==> starts_with(r->Ok_0@, utf8_lossy(run->stdout@)) && ends_with(
            r->Ok_0@,
            utf8_lossy(run->stderr@),
        ) && r->Ok_0@.len() == utf8_lossy(run->stdout@).len() + utf8_lossy(run->stderr@).len(),
        r is Err ==> occurs(r->Err_0@, program),
        elevated && run is NotStarted ==> ends_with(r->Err_0@, run->NotStarted_0@),
        elevated && run is Ended && !run->success ==> ends_with(
            r->Err_0@,
            trim(utf8_lossy(run->stderr@)),
        ),
{
    let none = Seq::<char>::empty();
    if !elevated {
        let rest = " must run elevated"@;
        a_part_occurs(none, program, rest);
        assert(none + program + rest =~= program + rest);
    } else {
        match run {
            ToolRun::NotStarted(err) => {
                let rest = ": "@ + err@;
                a_part_occurs("could not run "@, program, rest);
                assert("could not run "@ + program + rest =~= r->Err_0@);
                a_part_occurs("could not run "@ + program + ": "@, err@, none);
            },
            ToolRun::Ended { success, code, stdout, stderr } => {
                let out = utf8_lossy(stdout@);
                let err = utf8_lossy(stderr@);
                if success {
                    a_part_occurs(none, out, err);
                    a_part_occurs(out, err, none);
                } else {
                    let shown = signed_decimal(
                        match code {
                            Some(n) => n as int,
                            None => -1,
                        },
                    );
                    let rest = " exited with "@ + shown + ": "@ + trim(out) + trim(err);
                    a_part_occurs(none, program, rest);
                    assert(none + program + rest =~= r->Err_0@);
                    let head = program + " exited with "@ + shown + ": "@ + trim(out);
                    a_part_occurs(head, trim(err), none);
                }
            },
        }
    }
}

/// Arguments without spaces stand in the command line as they are, one behind
/// the other, and split apart again at the spaces between them.
pub proof fn plain_arguments_read_back(args: Seq<String>)
    requires
        args.len() > 0,
        forall|i: int| 0 <= i < args.len() ==> !(#[trigger] args[i])@.contains(' '),
    ensures
        split(command_line(args), ' ') == texts(args),
    decreases args.len(),
{
    let last = args.last()@;
    a_text_without_the_character_is_one_piece(last, ' ');
    if args.len() == 1 {
        assert(texts(args) =~= seq![last]);
    } else {
        let front = args.drop_last();
        assert forall|i: int| 0 <= i < front.len() implies !(#[trigger] front[i])@.contains(' ') by {
            assert(front[i] == args[i]);
        }
        plain_arguments_read_back(front);
        reveal_strlit(" ");
        assert(" "@ =~= seq![' ']);
        splitting_goes_piece_by_piece(command_line(front), last, ' ');
        assert(split(command_line(args), ' ') =~= texts(args));
    }
}

/// An argument with a space in it stands between quotes, whole.
pub proof fn an_argument_with_a_space_is_quoted(arg: Seq<char>)
    requires
        arg.contains(' '),
    ensures
        quoted_argument(arg).len() == arg.len() + 2,
        quoted_argument(arg)[0] == '"',
        quoted_argument(arg).last() == '"',
        quoted_argument(arg).subrange(1, 1 + arg.len() as int) == arg,
{
    reveal_strlit("\"");
    assert(quoted_argument(arg).subrange(1, 1 + arg.len() as int) =~= arg);
}

} // verus!
