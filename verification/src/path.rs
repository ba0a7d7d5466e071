//! Windows paths as text: what they begin with, what they are made of, when two
//! of them are the same, and how a name is put behind one.
//!
//! Both slashes separate components, repeated separators count once, and a
//! component that names the directory itself counts only at the very beginning.
//! A verbatim path, one behind `\\?\`, is taken as it stands: only the backslash
//! separates, and such a component counts everywhere.

use crate::text::{chars_of, lower_char, lowered, opt_text, rows, same_chars, string_of};
use vstd::prelude::*;
use vstd::slice::{slice_subrange, slice_to_vec};
use vstd::string::*;

verus! {

// ---------------------------------------------------------------------------
// Components
// ---------------------------------------------------------------------------

pub open spec fn is_separator(c: char) -> bool {
    c == '\\' || c == '/'
}

/// Whether a character separates components. Behind a verbatim prefix only the
/// backslash does.
pub open spec fn separates(c: char, verbatim: bool) -> bool {
    c == '\\' || (c == '/' && !verbatim)
}

/// Where the component that starts at `i` ends.
pub open spec fn component_end(path: Seq<char>, i: int, verbatim: bool) -> int
    decreases path.len() - i,
{
    if 0 <= i < path.len() && !separates(path[i], verbatim) {
        component_end(path, i + 1, verbatim)
    } else {
        i
    }
}

/// Where the component behind the one at `i` ends, if there is one.
pub open spec fn second_end(path: Seq<char>, i: int, verbatim: bool) -> int {
    let end = component_end(path, i, verbatim);
    if end < path.len() {
        component_end(path, end + 1, verbatim)
    } else {
        end
    }
}

/// The component that starts at `i`.
pub open spec fn component_at(path: Seq<char>, i: int, verbatim: bool) -> Seq<char> {
    path.subrange(i, component_end(path, i, verbatim))
}

/// The component behind the one at `i`.
pub open spec fn second_at(path: Seq<char>, i: int, verbatim: bool) -> Seq<char> {
    let end = component_end(path, i, verbatim);
    if end < path.len() {
        component_at(path, end + 1, verbatim)
    } else {
        Seq::empty()
    }
}

proof fn lemma_component_end(path: Seq<char>, i: int, verbatim: bool)
    requires
        0 <= i <= path.len(),
    ensures
        i <= component_end(path, i, verbatim) <= path.len(),
        forall|j: int|
            i <= j < component_end(path, i, verbatim) ==> !separates(#[trigger] path[j], verbatim),
    decreases path.len() - i,
{
    if i < path.len() && !separates(path[i], verbatim) {
        lemma_component_end(path, i + 1, verbatim);
    }
}

// ---------------------------------------------------------------------------
// Prefixes
// ---------------------------------------------------------------------------

/// What a path may begin with.
#[derive(Debug, Clone, Copy, PartialEq, Eq, Structural)]
pub enum PrefixKind {
    /// No prefix.
    Bare,
    /// `\\?\` and a component.
    Verbatim,
    /// `\\?\UNC\`, a server and a share.
    VerbatimUnc,
    /// `\\?\` and a drive.
    VerbatimDisk,
    /// `\\.\` and a device.
    Device,
    /// `\\`, a server and a share.
    Unc,
    /// A drive, such as `C:`.
    Disk,
}

/// Whether a path is verbatim: it begins with `\\?\`, spelled just so.
pub open spec fn is_verbatim(path: Seq<char>) -> bool {
    path.len() >= 4 && path[0] == '\\' && path[1] == '\\' && path[2] == '?' && path[3] == '\\'
}

/// Whether a drive such as `C:` stands at `i`.
pub open spec fn drive_at(path: Seq<char>, i: int) -> bool {
    path.len() >= i + 2 && path[i + 1] == ':' && ('a' <= lower_char(path[i]) <= 'z')
}

/// What a path begins with.
pub open spec fn prefix_kind(path: Seq<char>) -> PrefixKind {
    if is_verbatim(path) {
        if path.len() >= 8 && path[4] == 'U' && path[5] == 'N' && path[6] == 'C' && is_separator(
            path[7],
        ) {
            PrefixKind::VerbatimUnc
        } else if drive_at(path, 4) && (path.len() == 6 || is_separator(path[6])) {
            PrefixKind::VerbatimDisk
        } else {
            PrefixKind::Verbatim
        }
    } else if path.len() >= 2 && is_separator(path[0]) && is_separator(path[1]) {
        if path.len() >= 4 && path[2] == '.' && is_separator(path[3]) {
            PrefixKind::Device
        } else if component_at(path, 2, false).len() > 0 && second_at(path, 2, false).len() > 0 {
            PrefixKind::Unc
        } else {
            PrefixKind::Bare
        }
    } else if drive_at(path, 0) {
        PrefixKind::Disk
    } else {
        PrefixKind::Bare
    }
}

/// How much of a path is its prefix.
pub open spec fn prefix_len(path: Seq<char>) -> int {
    match prefix_kind(path) {
        PrefixKind::Bare => 0,
        PrefixKind::Verbatim => component_end(path, 4, true),
        PrefixKind::VerbatimUnc => if second_at(path, 8, true).len() > 0 {
            second_end(path, 8, true)
        } else {
            component_end(path, 8, true)
        },
        PrefixKind::VerbatimDisk => 6,
        PrefixKind::Device => component_end(path, 4, false),
        PrefixKind::Unc => second_end(path, 2, false),
        PrefixKind::Disk => 2,
    }
}

/// What a prefix names first: the component, the server, the device, or the
/// drive's letter, whose case does not matter.
pub open spec fn prefix_first(path: Seq<char>) -> Seq<char> {
    match prefix_kind(path) {
        PrefixKind::Bare => Seq::empty(),
        PrefixKind::Verbatim => component_at(path, 4, true),
        PrefixKind::VerbatimUnc => component_at(path, 8, true),
        PrefixKind::VerbatimDisk => seq![lower_char(path[4])],
        PrefixKind::Device => component_at(path, 4, false),
        PrefixKind::Unc => component_at(path, 2, false),
        PrefixKind::Disk => seq![lower_char(path[0])],
    }
}

/// The share that a prefix names.
pub open spec fn prefix_second(path: Seq<char>) -> Seq<char> {
    match prefix_kind(path) {
        PrefixKind::VerbatimUnc => second_at(path, 8, true),
        PrefixKind::Unc => second_at(path, 2, false),
        _ => Seq::empty(),
    }
}

/// Whether a separator follows the prefix: the root.
pub open spec fn has_separator_root(path: Seq<char>) -> bool {
    prefix_len(path) < path.len() && is_separator(path[prefix_len(path)])
}

/// Whether a path starts at a root. A share and a device always do.
pub open spec fn is_rooted(path: Seq<char>) -> bool {
    ||| has_separator_root(path)
    ||| prefix_kind(path) == PrefixKind::Unc
    ||| prefix_kind(path) == PrefixKind::Device
}

/// Where what follows the prefix and the root begins.
pub open spec fn body_start(path: Seq<char>) -> int {
    if has_separator_root(path) {
        prefix_len(path) + 1
    } else {
        prefix_len(path)
    }
}

// ---------------------------------------------------------------------------
// Whole paths
// ---------------------------------------------------------------------------

/// The components from `i` on that count. One that names the directory itself
/// counts in a verbatim path, and where it is the first and `leading`.
pub open spec fn names_from(path: Seq<char>, i: int, verbatim: bool, leading: bool) -> Seq<
    Seq<char>,
>
    decreases path.len() + 1 - i,
{
    let end = component_end(path, i, verbatim);
    let name = component_at(path, i, verbatim);
    if !(0 <= i < path.len() && i <= end <= path.len()) {
        Seq::empty()
    } else if name.len() == 0 || (name == seq!['.'] && !verbatim && !leading) {
        names_from(path, end + 1, verbatim, false)
    } else {
        seq![name] + names_from(path, end + 1, verbatim, false)
    }
}

/// The components behind the prefix and the root.
pub open spec fn names_of(path: Seq<char>) -> Seq<Seq<char>> {
    names_from(
        path,
        body_start(path),
        is_verbatim(path),
        prefix_kind(path) == PrefixKind::Bare && !is_rooted(path),
    )
}

/// What a path says, whichever way it is spelled.
#[verifier::ext_equal]
pub struct PathView {
    pub kind: PrefixKind,
    pub first: Seq<char>,
    pub second: Seq<char>,
    pub rooted: bool,
    pub names: Seq<Seq<char>>,
}

/// What a path says.
pub open spec fn path_view(path: Seq<char>) -> PathView {
    PathView {
        kind: prefix_kind(path),
        first: prefix_first(path),
        second: prefix_second(path),
        rooted: is_rooted(path),
        names: names_of(path),
    }
}

/// Whether two paths are the same, component by component.
pub open spec fn same_path(a: Seq<char>, b: Seq<char>) -> bool {
    path_view(a) == path_view(b)
}

/// Whether two paths that may be missing are both missing, or the same.
pub open spec fn same_opt_path(a: Option<Seq<char>>, b: Option<Seq<char>>) -> bool {
    match (a, b) {
        (Some(x), Some(y)) => same_path(x, y),
        (None, None) => true,
        _ => false,
    }
}

/// Whether a component is a name proper: neither the directory itself nor its
/// parent.
pub open spec fn is_proper(name: Seq<char>) -> bool {
    name != seq!['.'] && name != seq!['.', '.']
}

/// The file name of a path.
pub open spec fn file_name(path: Seq<char>) -> Option<Seq<char>> {
    let names = names_of(path);
    if names.len() > 0 && is_proper(names.last()) {
        Some(names.last())
    } else {
        None
    }
}

/// Names with one more step behind them, where nothing may stay that Windows
/// would not resolve by itself.
pub open spec fn stepped(names: Seq<Seq<char>>, step: Seq<char>) -> Seq<Seq<char>> {
    if step == seq!['.'] {
        names
    } else if step == seq!['.', '.'] {
        if names.len() > 0 && is_proper(names.last()) {
            names.drop_last()
        } else {
            names
        }
    } else {
        names.push(step)
    }
}

/// Names with more steps behind them.
pub open spec fn walked(names: Seq<Seq<char>>, steps: Seq<Seq<char>>) -> Seq<Seq<char>>
    decreases steps.len(),
{
    if steps.len() == 0 {
        names
    } else {
        stepped(walked(names, steps.drop_last()), steps.last())
    }
}

/// Names, each behind a backslash.
pub open spec fn spelled(names: Seq<Seq<char>>) -> Seq<char>
    decreases names.len(),
{
    if names.len() == 0 {
        Seq::empty()
    } else {
        spelled(names.drop_last()) + seq!['\\'] + names.last()
    }
}

/// A path with another put behind it.
///
/// One with a prefix takes the path's place, and one that is rooted takes the
/// place of all but the path's prefix. Behind a verbatim path the steps are
/// taken at once, since Windows would not take them. Else a separator goes
/// between the two, unless the path is empty, already ends in one, or is a bare
/// drive.
pub open spec fn joined_path(base: Seq<char>, name: Seq<char>) -> Seq<char> {
    if prefix_kind(name) != PrefixKind::Bare {
        name
    } else if is_verbatim(base) && name.len() > 0 {
        let names = walked(
            if is_rooted(name) {
                Seq::empty()
            } else {
                names_of(base)
            },
            names_of(name),
        );
        base.take(prefix_len(base)) + (if names.len() == 0 && (is_rooted(base) || is_rooted(name)) {
            seq!['\\']
        } else {
            spelled(names)
        })
    } else if is_rooted(name) {
        base.take(prefix_len(base)) + name
    } else if base.len() == 0 || is_separator(base.last()) || (prefix_kind(base)
        == PrefixKind::Disk && base.len() == 2) {
        base + name
    } else {
        base + seq!['\\'] + name
    }
}

// ---------------------------------------------------------------------------
// Reading
// ---------------------------------------------------------------------------

fn separator(c: char) -> (r: bool)
    ensures
        r == is_separator(c),
{
    c == '\\' || c == '/'
}

fn splits(c: char, verbatim: bool) -> (r: bool)
    ensures
        r == separates(c, verbatim),
{
    c == '\\' || (c == '/' && !verbatim)
}

fn find_component_end(path: &[char], from: usize, verbatim: bool) -> (r: usize)
    requires
        from <= path@.len(),
    ensures
        r == component_end(path@, from as int, verbatim),
        from <= r <= path@.len(),
{
    let mut i: usize = from;
    while i < path.len() && !splits(path[i], verbatim)
        invariant
            from <= i <= path@.len(),
            component_end(path@, from as int, verbatim) == component_end(
                path@,
                i as int,
                verbatim,
            ),
        decreases path@.len() - i,
    {
        i = i + 1;
    }
    i
}

fn append_all(out: &mut Vec<char>, more: &[char])
    ensures
        final(out)@ == old(out)@ + more@,
{
    let mut i: usize = 0;
    assert(out@ =~= old(out)@ + more@.take(0));
    while i < more.len()
        invariant
            i <= more@.len(),
            out@ == old(out)@ + more@.take(i as int),
        decreases more@.len() - i,
    {
        out.push(more[i]);
        assert(out@ =~= old(out)@ + more@.take(i + 1));
        i = i + 1;
    }
    assert(more@.take(i as int) =~= more@);
}

/// Two components in a row, and where each of them ends.
fn find_two(path: &[char], from: usize, verbatim: bool) -> (r: (Vec<char>, Vec<char>, usize, usize))
    requires
        from <= path@.len(),
    ensures
        r.0@ == component_at(path@, from as int, verbatim),
        r.1@ == second_at(path@, from as int, verbatim),
        r.2 == component_end(path@, from as int, verbatim),
        r.3 == second_end(path@, from as int, verbatim),
        from <= r.2 <= r.3 <= path@.len(),
{
    let end = find_component_end(path, from, verbatim);
    let first = slice_to_vec(slice_subrange(path, from, end));
    if end < path.len() {
        let last = find_component_end(path, end + 1, verbatim);
        let second = slice_to_vec(slice_subrange(path, end + 1, last));
        (first, second, end, last)
    } else {
        (first, Vec::new(), end, end)
    }
}

fn find_verbatim(path: &[char]) -> (r: bool)
    ensures
        r == is_verbatim(path@),
{
    path.len() >= 4 && path[0] == '\\' && path[1] == '\\' && path[2] == '?' && path[3] == '\\'
}

fn find_drive(path: &[char], at: usize) -> (r: bool)
    requires
        at <= path@.len(),
    ensures
        r == drive_at(path@, at as int),
{
    if path.len() - at >= 2 && path[at + 1] == ':' {
        let c: char = lowered(path[at]);
        'a' <= c && c <= 'z'
    } else {
        false
    }
}

/// What a path begins with.
#[derive(Debug)]
struct Prefix {
    kind: PrefixKind,
    first: Vec<char>,
    second: Vec<char>,
    size: usize,
}

spec fn reads(prefix: Prefix, path: Seq<char>) -> bool {
    &&& prefix.kind == prefix_kind(path)
    &&& prefix.first@ == prefix_first(path)
    &&& prefix.second@ == prefix_second(path)
    &&& prefix.size == prefix_len(path)
    &&& prefix.size <= path.len()
}

fn find_prefix(path: &[char]) -> (r: Prefix)
    ensures
        reads(r, path@),
{
    let size: usize = path.len();
    if find_verbatim(path) {
        if size >= 8 && path[4] == 'U' && path[5] == 'N' && path[6] == 'C' && separator(path[7]) {
            let (first, second, end, last) = find_two(path, 8, true);
            let size: usize = if second.len() > 0 {
                last
            } else {
                end
            };
            return Prefix { kind: PrefixKind::VerbatimUnc, first, second, size };
        }
        if find_drive(path, 4) && (size == 6 || separator(path[6])) {
            let first: Vec<char> = vec![lowered(path[4])];
            assert(first@ =~= seq![lower_char(path@[4])]);
            return Prefix {
                kind: PrefixKind::VerbatimDisk,
                first,
                second: Vec::new(),
                size: 6,
            };
        }
        let (first, _, end, _) = find_two(path, 4, true);
        return Prefix { kind: PrefixKind::Verbatim, first, second: Vec::new(), size: end };
    }
    if size >= 2 && separator(path[0]) && separator(path[1]) {
        if size >= 4 && path[2] == '.' && separator(path[3]) {
            let (first, _, end, _) = find_two(path, 4, false);
            return Prefix { kind: PrefixKind::Device, first, second: Vec::new(), size: end };
        }
        let (first, second, _, last) = find_two(path, 2, false);
        if first.len() > 0 && second.len() > 0 {
            return Prefix { kind: PrefixKind::Unc, first, second, size: last };
        }
        return Prefix {
            kind: PrefixKind::Bare,
            first: Vec::new(),
            second: Vec::new(),
            size: 0,
        };
    }
    if find_drive(path, 0) {
        let first: Vec<char> = vec![lowered(path[0])];
        assert(first@ =~= seq![lower_char(path@[0])]);
        return Prefix {
            kind: PrefixKind::Disk,
            first,
            second: Vec::new(),
            size: 2,
        };
    }
    Prefix { kind: PrefixKind::Bare, first: Vec::new(), second: Vec::new(), size: 0 }
}

fn is_here(name: &[char]) -> (r: bool)
    ensures
        r == (name@ == seq!['.']),
{
    let r: bool = name.len() == 1 && name[0] == '.';
    assert(r == (name@ =~= seq!['.']));
    r
}

fn is_parent(name: &[char]) -> (r: bool)
    ensures
        r == (name@ == seq!['.', '.']),
{
    let r: bool = name.len() == 2 && name[0] == '.' && name[1] == '.';
    assert(r == (name@ =~= seq!['.', '.']));
    r
}

fn find_names(path: &[char], from: usize, verbatim: bool, leading: bool) -> (r: Vec<Vec<char>>)
    requires
        from <= path@.len(),
    ensures
        rows(r@) == names_from(path@, from as int, verbatim, leading),
{
    let mut names: Vec<Vec<char>> = Vec::new();
    let mut i: usize = from;
    let mut first: bool = leading;
    assert(rows(names@) + names_from(path@, from as int, verbatim, leading) =~= names_from(
        path@,
        from as int,
        verbatim,
        leading,
    ));
    while i < path.len()
        invariant
            i <= path@.len(),
            rows(names@) + names_from(path@, i as int, verbatim, first) == names_from(
                path@,
                from as int,
                verbatim,
                leading,
            ),
        decreases path@.len() - i,
    {
        let end = find_component_end(path, i, verbatim);
        let name = slice_subrange(path, i, end);
        let ghost before = rows(names@);
        let ghost rest = names_from(path@, end + 1, verbatim, false);
        if name.len() > 0 && (!is_here(name) || verbatim || first) {
            names.push(slice_to_vec(name));
            assert(rows(names@) =~= before.push(name@));
            assert(before + (seq![name@] + rest) =~= before.push(name@) + rest);
        }
        first = false;
        if end < path.len() {
            i = end + 1;
        } else {
            assert(rest =~= Seq::empty());
            assert(names_from(path@, end as int, verbatim, false) =~= Seq::empty());
            i = end;
        }
    }
    assert(rows(names@) + Seq::<Seq<char>>::empty() =~= rows(names@));
    names
}

/// A path, taken apart.
#[derive(Debug)]
struct Parsed {
    prefix: Prefix,
    rooted: bool,
    names: Vec<Vec<char>>,
}

spec fn parses(parsed: Parsed, path: Seq<char>) -> bool {
    &&& reads(parsed.prefix, path)
    &&& parsed.rooted == is_rooted(path)
    &&& rows(parsed.names@) == names_of(path)
}

fn parse(path: &[char]) -> (r: Parsed)
    ensures
        parses(r, path@),
{
    let prefix = find_prefix(path);
    let skip: usize = prefix.size;
    let physical: bool = skip < path.len() && separator(path[skip]);
    let rooted: bool = physical || prefix.kind == PrefixKind::Unc || prefix.kind
        == PrefixKind::Device;
    let start: usize = if physical {
        skip + 1
    } else {
        skip
    };
    let leading: bool = prefix.kind == PrefixKind::Bare && !rooted;
    let names = find_names(path, start, find_verbatim(path), leading);
    Parsed { prefix, rooted, names }
}

// ---------------------------------------------------------------------------
// Comparing and joining
// ---------------------------------------------------------------------------

fn same_rows(a: &Vec<Vec<char>>, b: &Vec<Vec<char>>) -> (r: bool)
    ensures
        r == (rows(a@) == rows(b@)),
{
    if a.len() != b.len() {
        assert(rows(a@).len() != rows(b@).len());
        return false;
    }
    let mut i: usize = 0;
    while i < a.len()
        invariant
            i <= a@.len() == b@.len(),
            forall|j: int| 0 <= j < i ==> (#[trigger] a@[j])@ == b@[j]@,
        decreases a@.len() - i,
    {
        if !same_chars(a[i].as_slice(), b[i].as_slice()) {
            assert(rows(a@)[i as int] != rows(b@)[i as int]);
            return false;
        }
        i = i + 1;
    }
    assert(rows(a@) =~= rows(b@));
    true
}

/// Whether two paths are the same, component by component.
pub fn paths_equal(a: &str, b: &str) -> (r: bool)
    ensures
        r == same_path(a@, b@),
{
    let x = parse(chars_of(a).as_slice());
    let y = parse(chars_of(b).as_slice());
    let r: bool = x.prefix.kind == y.prefix.kind && x.rooted == y.rooted && same_chars(
        x.prefix.first.as_slice(),
        y.prefix.first.as_slice(),
    ) && same_chars(x.prefix.second.as_slice(), y.prefix.second.as_slice()) && same_rows(
        &x.names,
        &y.names,
    );
    assert(r == (path_view(a@) =~= path_view(b@)));
    r
}

/// Whether two paths that may be missing are both missing, or the same.
pub fn opt_paths_equal(a: &Option<String>, b: &Option<String>) -> (r: bool)
    ensures
        r == same_opt_path(opt_text(*a), opt_text(*b)),
{
    match (a, b) {
        (Some(x), Some(y)) => paths_equal(x.as_str(), y.as_str()),
        (None, None) => true,
        _ => false,
    }
}

/// The file name of a Windows path.
pub fn windows_file_name(path: &str) -> (r: Option<String>)
    ensures
        opt_text(r) == file_name(path@),
{
    let parsed = parse(chars_of(path).as_slice());
    let n: usize = parsed.names.len();
    if n == 0 {
        return None;
    }
    let name = parsed.names[n - 1].as_slice();
    assert(name@ == rows(parsed.names@).last());
    if is_here(name) || is_parent(name) {
        None
    } else {
        Some(string_of(name))
    }
}

fn step(names: &mut Vec<Vec<char>>, name: Vec<char>)
    ensures
        rows(final(names)@) == stepped(rows(old(names)@), name@),
{
    if is_here(name.as_slice()) {
        return;
    }
    let n: usize = names.len();
    if is_parent(name.as_slice()) {
        if n > 0 {
            let ghost before = names@;
            let last = names[n - 1].as_slice();
            assert(last@ == rows(names@).last());
            if !is_here(last) && !is_parent(last) {
                let _ = names.pop();
                assert(rows(names@) =~= rows(before).drop_last());
            }
        }
        return;
    }
    let ghost before = names@;
    names.push(name);
    assert(rows(names@) =~= rows(before).push(name@));
}

/// Puts the steps of a path without a prefix behind a verbatim one.
fn join_verbatim(base: &[char], name: &[char]) -> (r: Vec<char>)
    requires
        is_verbatim(base@),
        name@.len() > 0,
        prefix_kind(name@) == PrefixKind::Bare,
    ensures
        r@ == joined_path(base@, name@),
{
    let b = parse(base);
    let n = parse(name);
    let rooted: bool = b.rooted || n.rooted;
    let mut names: Vec<Vec<char>> = if n.rooted {
        Vec::new()
    } else {
        b.names
    };
    let ghost start = rows(names@);
    let ghost steps = rows(n.names@);
    assert(n.rooted ==> start =~= Seq::empty());
    let mut i: usize = 0;
    assert(steps.take(0) =~= Seq::empty());
    while i < n.names.len()
        invariant
            i <= n.names@.len(),
            steps == rows(n.names@),
            rows(names@) == walked(start, steps.take(i as int)),
        decreases n.names@.len() - i,
    {
        step(&mut names, slice_to_vec(n.names[i].as_slice()));
        proof {
            assert(steps.take(i + 1).drop_last() =~= steps.take(i as int));
        }
        i = i + 1;
    }
    assert(steps.take(i as int) =~= steps);
    let mut out: Vec<char> = slice_to_vec(slice_subrange(base, 0, b.prefix.size));
    let ghost head = base@.take(prefix_len(base@));
    assert(out@ =~= head);
    if names.len() == 0 && rooted {
        out.push('\\');
        assert(out@ =~= head + seq!['\\']);
        return out;
    }
    let ghost all = rows(names@);
    let mut k: usize = 0;
    assert(all.take(0) =~= Seq::empty());
    assert(out@ =~= head + spelled(all.take(0)));
    while k < names.len()
        invariant
            k <= names@.len(),
            all == rows(names@),
            out@ == head + spelled(all.take(k as int)),
        decreases names@.len() - k,
    {
        let ghost before = out@;
        out.push('\\');
        append_all(&mut out, names[k].as_slice());
        proof {
            assert(all.take(k + 1).drop_last() =~= all.take(k as int));
            assert(out@ =~= head + spelled(all.take(k + 1)));
        }
        k = k + 1;
    }
    assert(all.take(k as int) =~= all);
    out
}

/// Executable [`joined_path`].
pub fn join_path(base: &str, name: &str) -> (r: String)
    ensures
        r@ == joined_path(base@, name@),
{
    let front = chars_of(base);
    let back = chars_of(name);
    let behind = parse(back.as_slice());
    if behind.prefix.kind != PrefixKind::Bare {
        return name.to_owned();
    }
    if find_verbatim(front.as_slice()) && back.len() > 0 {
        return string_of(join_verbatim(front.as_slice(), back.as_slice()).as_slice());
    }
    let prefix = find_prefix(front.as_slice());
    let n: usize = front.len();
    if behind.rooted {
        let mut out: Vec<char> = slice_to_vec(slice_subrange(front.as_slice(), 0, prefix.size));
        assert(out@ =~= base@.take(prefix_len(base@)));
        append_all(&mut out, back.as_slice());
        return string_of(out.as_slice());
    }
    let mut out: String = base.to_owned();
    if !(n == 0 || separator(front[n - 1]) || (prefix.kind == PrefixKind::Disk && n == 2)) {
        out.push('\\');
        assert(out@ =~= base@ + seq!['\\']);
    }
    out.append(name);
    out
}

// ---------------------------------------------------------------------------
// What holds of paths
// ---------------------------------------------------------------------------

/// Whether a text is a single name: no separator, no drive, and not a step.
pub open spec fn is_plain_name(name: Seq<char>) -> bool {
    &&& name.len() > 0
    &&& forall|i: int| 0 <= i < name.len() ==> !is_separator(#[trigger] name[i])
    &&& !drive_at(name, 0)
    &&& is_proper(name)
}

proof fn lemma_plain_names(name: Seq<char>)
    requires
        is_plain_name(name),
    ensures
        prefix_kind(name) == PrefixKind::Bare,
        !is_rooted(name),
        names_of(name) == seq![name],
{
    lemma_component_end(name, 0, false);
    let end = component_end(name, 0, false);
    lemma_component_stops(name, 0, false);
    assert(!is_separator(name[0]));
    assert(!is_verbatim(name));
    assert(end == name.len());
    assert(component_at(name, 0, false) =~= name);
    assert(names_from(name, end + 1, false, false) =~= Seq::empty());
    assert(seq![name] + Seq::<Seq<char>>::empty() =~= seq![name]);
}

proof fn lemma_component_stops(path: Seq<char>, i: int, verbatim: bool)
    requires
        0 <= i <= path.len(),
    ensures
        component_end(path, i, verbatim) < path.len() ==> separates(
            path[component_end(path, i, verbatim)],
            verbatim,
        ),
    decreases path.len() - i,
{
    if i < path.len() && !separates(path[i], verbatim) {
        lemma_component_stops(path, i + 1, verbatim);
    }
}

/// What a single name is put behind.
pub open spec fn join_head(base: Seq<char>) -> Seq<char> {
    if is_verbatim(base) {
        base.take(prefix_len(base)) + spelled(names_of(base)) + seq!['\\']
    } else if base.len() == 0 || is_separator(base.last()) || (prefix_kind(base)
        == PrefixKind::Disk && base.len() == 2) {
        base
    } else {
        base + seq!['\\']
    }
}

/// A path with a single name put behind it ends in that name, and what stands
/// in front does not depend on the name.
pub proof fn a_joined_path_ends_in_the_name(base: Seq<char>, name: Seq<char>)
    requires
        is_plain_name(name),
    ensures
        joined_path(base, name) == join_head(base) + name,
{
    lemma_plain_names(name);
    if is_verbatim(base) {
        let front = names_of(base);
        let names = walked(front, seq![name]);
        assert(seq![name].drop_last() =~= Seq::empty());
        reveal_with_fuel(walked, 2);
        assert(names == front.push(name));
        assert(names.drop_last() =~= front);
        let head = base.take(prefix_len(base));
        assert(joined_path(base, name) == head + (spelled(front) + seq!['\\'] + name));
        assert(joined_path(base, name) =~= join_head(base) + name);
    } else {
        assert(joined_path(base, name) =~= join_head(base) + name);
    }
}

/// Two names put behind one path make two texts.
pub proof fn joining_keeps_names_apart(base: Seq<char>, a: Seq<char>, b: Seq<char>)
    requires
        is_plain_name(a),
        is_plain_name(b),
        a != b,
    ensures
        joined_path(base, a) != joined_path(base, b),
{
    a_joined_path_ends_in_the_name(base, a);
    a_joined_path_ends_in_the_name(base, b);
    let n = join_head(base).len() as int;
    assert((join_head(base) + a).skip(n) =~= a);
    assert((join_head(base) + b).skip(n) =~= b);
}

/// Being the same path is an equivalence, and the same text is the same path.
pub proof fn same_path_is_an_equivalence(a: Seq<char>, b: Seq<char>, c: Seq<char>)
    ensures
        same_path(a, a),
        same_path(a, b) == same_path(b, a),
        same_path(a, b) && same_path(b, c) ==> same_path(a, c),
{
}

/// The same path has the same file name, however it is spelled.
pub proof fn same_paths_share_the_file_name(a: Seq<char>, b: Seq<char>)
    requires
        same_path(a, b),
    ensures
        file_name(a) == file_name(b),
{
}

/// Whether a path begins with a drive: a letter and a colon.
pub open spec fn starts_with_drive(path: Seq<char>) -> bool {
    path.len() >= 2 && path[1] == ':' && ('a' <= path[0] <= 'z' || 'A' <= path[0] <= 'Z')
}

proof fn lemma_drive(path: Seq<char>)
    requires
        starts_with_drive(path),
    ensures
        prefix_kind(path) == PrefixKind::Disk,
        !is_verbatim(path),
        prefix_len(path) == 2,
        has_separator_root(path) == (path.len() > 2 && is_separator(path[2])),
        body_start(path) == (if path.len() > 2 && is_separator(path[2]) {
            3int
        } else {
            2
        }),
{
    assert(!is_separator(path[0]));
    assert('a' <= lower_char(path[0]) <= 'z');
}

proof fn lemma_last_name(head: Seq<char>, name: Seq<char>, i: int, leading: bool)
    requires
        is_plain_name(name),
        0 <= i <= head.len() + 1,
    ensures
        ({
            let path = head + seq!['\\'] + name;
            let names = names_from(path, i, false, leading);
            names.len() > 0 && names.last() == name
        }),
    decreases head.len() + 1 - i,
{
    let path = head + seq!['\\'] + name;
    let end = component_end(path, i, false);
    lemma_component_end(path, i, false);
    lemma_component_stops(path, i, false);
    if i == head.len() + 1 {
        if end < path.len() {
            assert(path[end] == name[end - i]);
        }
        assert(component_at(path, i, false) =~= name);
        let rest = names_from(path, end + 1, false, false);
        assert(rest =~= Seq::empty());
        assert((seq![name] + rest).last() == name);
    } else {
        if end > head.len() {
            assert(separates(path[head.len() as int], false));
        }
        lemma_last_name(head, name, end + 1, false);
        let rest = names_from(path, end + 1, false, false);
        let first = component_at(path, i, false);
        assert((seq![first] + rest).last() == rest.last());
    }
}

/// The file name of a path on a drive is what stands behind the last
/// separator, whatever stands in front of it.
pub proof fn the_file_name_is_behind_the_last_separator(head: Seq<char>, name: Seq<char>)
    requires
        starts_with_drive(head),
        is_plain_name(name),
    ensures
        file_name(head + seq!['\\'] + name) == Some(name),
{
    let path = head + seq!['\\'] + name;
    assert(path[0] == head[0] && path[1] == head[1]);
    lemma_drive(path);
    assert(path[head.len() as int] == '\\');
    lemma_last_name(head, name, body_start(path), false);
}

/// A name by itself is its own file name.
pub proof fn a_name_is_its_own_file_name(name: Seq<char>)
    requires
        is_plain_name(name),
    ensures
        file_name(name) == Some(name),
{
    lemma_plain_names(name);
}

/// A path with every slash turned into a backslash.
pub open spec fn backslashed(path: Seq<char>) -> Seq<char> {
    path.map_values(
        |c: char|
            if c == '/' {
                '\\'
            } else {
                c
            },
    )
}

proof fn lemma_backslashed_end(path: Seq<char>, i: int)
    requires
        0 <= i <= path.len(),
    ensures
        component_end(backslashed(path), i, false) == component_end(path, i, false),
    decreases path.len() - i,
{
    if i < path.len() && !separates(path[i], false) {
        lemma_backslashed_end(path, i + 1);
    }
}

proof fn lemma_backslashed_names(path: Seq<char>, i: int, leading: bool)
    requires
        0 <= i,
    ensures
        names_from(backslashed(path), i, false, leading) == names_from(path, i, false, leading),
    decreases path.len() + 1 - i,
{
    if i < path.len() {
        lemma_backslashed_end(path, i);
        lemma_component_end(path, i, false);
        let end = component_end(path, i, false);
        assert(component_at(backslashed(path), i, false) =~= component_at(path, i, false));
        lemma_backslashed_names(path, end + 1, false);
    }
}

/// On a drive the two slashes mean the same.
pub proof fn both_slashes_mean_the_same(path: Seq<char>)
    requires
        starts_with_drive(path),
    ensures
        same_path(path, backslashed(path)),
{
    let other = backslashed(path);
    assert(other[0] == path[0] && other[1] == path[1]);
    lemma_drive(path);
    lemma_drive(other);
    lemma_backslashed_names(path, body_start(path), false);
    assert(prefix_first(path) =~= prefix_first(other));
    assert(path_view(path) =~= path_view(other));
}

/// Paths on different drives are different, and so are paths that end in
/// different names; only the case of the drive's letter does not matter.
pub proof fn drives_and_names_tell_paths_apart(a: Seq<char>, b: Seq<char>)
    requires
        starts_with_drive(a),
        starts_with_drive(b),
    ensures
        lower_char(a[0]) != lower_char(b[0]) ==> !same_path(a, b),
        file_name(a) != file_name(b) ==> !same_path(a, b),
        lower_char(a[0]) == lower_char(b[0]) && a.skip(1) == b.skip(1) ==> same_path(a, b),
{
    lemma_drive(a);
    lemma_drive(b);
    if lower_char(a[0]) != lower_char(b[0]) {
        assert(prefix_first(a)[0] != prefix_first(b)[0]);
    }
    if lower_char(a[0]) == lower_char(b[0]) && a.skip(1) == b.skip(1) {
        assert(a.len() == a.skip(1).len() + 1 && b.len() == b.skip(1).len() + 1);
        assert forall|j: int| 1 <= j < a.len() implies a[j] == b[j] by {
            assert(a.skip(1)[j - 1] == b.skip(1)[j - 1]);
        }
        lemma_same_tail(a, b, body_start(a), false);
        assert(prefix_first(a) =~= prefix_first(b));
        assert(path_view(a) =~= path_view(b));
    }
}

proof fn lemma_same_tail_end(a: Seq<char>, b: Seq<char>, i: int)
    requires
        1 <= i <= a.len(),
        a.len() == b.len(),
        forall|j: int| 1 <= j < a.len() ==> a[j] == b[j],
    ensures
        component_end(a, i, false) == component_end(b, i, false),
    decreases a.len() - i,
{
    if i < a.len() && !separates(a[i], false) {
        lemma_same_tail_end(a, b, i + 1);
    }
}

proof fn lemma_same_tail(a: Seq<char>, b: Seq<char>, i: int, leading: bool)
    requires
        1 <= i,
        a.len() == b.len(),
        forall|j: int| 1 <= j < a.len() ==> a[j] == b[j],
    ensures
        names_from(a, i, false, leading) == names_from(b, i, false, leading),
    decreases a.len() + 1 - i,
{
    if i < a.len() {
        lemma_same_tail_end(a, b, i);
        lemma_component_end(a, i, false);
        let end = component_end(a, i, false);
        assert(component_at(a, i, false) =~= component_at(b, i, false));
        lemma_same_tail(a, b, end + 1, false);
    }
}

proof fn lemma_plain_component(path: Seq<char>, i: int, end: int, verbatim: bool)
    requires
        0 <= i <= end <= path.len(),
        forall|j: int| i <= j < end ==> !separates(#[trigger] path[j], verbatim),
        end < path.len() ==> separates(path[end], verbatim),
    ensures
        component_end(path, i, verbatim) == end,
    decreases end - i,
{
    if i < end {
        lemma_plain_component(path, i + 1, end, verbatim);
    }
}

/// The file name of a path on a share is what stands behind the share; the
/// server and the share are no part of it.
pub proof fn a_share_is_no_file_name(server: Seq<char>, share: Seq<char>, name: Seq<char>)
    requires
        is_plain_name(server),
        is_plain_name(share),
        is_plain_name(name),
        server != seq!['?'],
    ensures
        ({
            let path = seq!['\\', '\\'] + server + seq!['\\'] + share + seq!['\\'] + name;
            &&& prefix_kind(path) == PrefixKind::Unc
            &&& prefix_first(path) == server
            &&& prefix_second(path) == share
            &&& is_rooted(path)
            &&& names_of(path) == seq![name]
            &&& file_name(path) == Some(name)
        }),
{
    let head = seq!['\\', '\\'] + server + seq!['\\'] + share;
    let path = head + seq!['\\'] + name;
    let a = 2 + server.len() as int;
    let b = a + 1 + share.len() as int;
    assert(path[0] == '\\' && path[1] == '\\' && path[a] == '\\' && path[b] == '\\');
    assert forall|j: int| 2 <= j < a implies !separates(#[trigger] path[j], false) by {
        assert(path[j] == server[j - 2]);
    }
    assert forall|j: int| a + 1 <= j < b implies !separates(#[trigger] path[j], false) by {
        assert(path[j] == share[j - a - 1]);
    }
    assert forall|j: int| b + 1 <= j < path.len() implies !separates(#[trigger] path[j], false) by {
        assert(path[j] == name[j - b - 1]);
    }
    lemma_plain_component(path, 2, a, false);
    lemma_plain_component(path, a + 1, b, false);
    lemma_plain_component(path, b + 1, path.len() as int, false);
    if path.len() >= 4 && (path[2] == '?' || path[2] == '.') && is_separator(path[3]) {
        assert(path[2] == server[0]);
        if server.len() > 1 {
            assert(path[3] == server[1]);
        }
        assert(server =~= seq![path[2]]);
    }
    assert(!is_verbatim(path));
    assert(component_at(path, 2, false) =~= server);
    assert(component_at(path, a + 1, false) =~= share);
    assert(component_at(path, b + 1, false) =~= name);
    assert(prefix_len(path) == b);
    assert(body_start(path) == b + 1);
    let rest = names_from(path, 1 + path.len() as int, false, false);
    assert(rest =~= Seq::empty());
    assert(seq![name] + rest =~= seq![name]);
    assert(names_of(path) == seq![name]);
    assert(path =~= seq!['\\', '\\'] + server + seq!['\\'] + share + seq!['\\'] + name);
}

proof fn lemma_last_verbatim_name(head: Seq<char>, name: Seq<char>, i: int, leading: bool)
    requires
        name.len() > 0,
        !name.contains('\\'),
        0 <= i <= head.len() + 1,
    ensures
        ({
            let names = names_from(head + seq!['\\'] + name, i, true, leading);
            names.len() > 0 && names.last() == name
        }),
    decreases head.len() + 1 - i,
{
    let path = head + seq!['\\'] + name;
    let end = component_end(path, i, true);
    lemma_component_end(path, i, true);
    lemma_component_stops(path, i, true);
    if i == head.len() + 1 {
        if end < path.len() {
            assert(path[end] == name[end - i]);
            assert(name.contains(name[end - i]));
        }
        assert(component_at(path, i, true) =~= name);
        let rest = names_from(path, end + 1, true, false);
        assert(rest =~= Seq::empty());
        assert((seq![name] + rest).last() == name);
    } else {
        if end > head.len() {
            assert(separates(path[head.len() as int], true));
        }
        lemma_last_verbatim_name(head, name, end + 1, false);
        let rest = names_from(path, end + 1, true, false);
        let first = component_at(path, i, true);
        assert((seq![first] + rest).last() == rest.last());
    }
}

/// In a verbatim path only the backslash separates: a slash is part of the name.
pub proof fn a_verbatim_name_may_hold_a_slash(drive: char, folder: Seq<char>, name: Seq<char>)
    requires
        'a' <= drive <= 'z' || 'A' <= drive <= 'Z',
        folder.len() == 0 || folder[0] == '\\',
        name.len() > 0,
        !name.contains('\\'),
        is_proper(name),
    ensures
        file_name(seq!['\\', '\\', '?', '\\', drive, ':'] + folder + seq!['\\'] + name) == Some(
            name,
        ),
{
    let start = seq!['\\', '\\', '?', '\\', drive, ':'];
    let head = start + folder;
    let path = head + seq!['\\'] + name;
    assert('a' <= lower_char(drive) <= 'z');
    assert(path[0] == '\\' && path[1] == '\\' && path[2] == '?' && path[3] == '\\' && path[4]
        == drive && path[5] == ':' && path[6] == '\\');
    assert(is_verbatim(path));
    assert(prefix_kind(path) == PrefixKind::VerbatimDisk);
    assert(body_start(path) == 7);
    lemma_last_verbatim_name(head, name, 7, false);
}

} // verus!
