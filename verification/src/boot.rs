//! Boot manager decisions: which strategy a firmware needs, which Windows
//! Boot Manager entries belong to the installation, and the `bcdedit`
//! command plans that create them.
use vstd::prelude::*;
use crate::seqs::{first_where, lemma_first_where, lemma_first_where_some};
use crate::text::{
    chars_of, push_str, seq_equal, slice_chars, spec_contains, contains_chars, string_from_chars, trim_chars, trim_end_char,
    trim_end_char_chars, trim_ws,
};

verus! {

/// How the live system is chained from the Windows Boot Manager.
#[derive(Debug, Clone, Copy, PartialEq, Eq, Structural)]
pub enum BootStrategyKind {
    /// A firmware boot entry pointing at the EFI loader.
    Uefi,
    /// A boot-sector entry chaining GRUB4DOS.
    Legacy,
}

/// Chooses the boot strategy for the host firmware.
pub struct BootManager;

impl BootManager {
    /// The UEFI strategy on UEFI hosts, the legacy one otherwise.
    pub fn get_strategy(is_uefi: bool) -> (r: BootStrategyKind)
        ensures
            r == (if is_uefi { BootStrategyKind::Uefi } else { BootStrategyKind::Legacy }),
    {
        if is_uefi {
            BootStrategyKind::Uefi
        } else {
            BootStrategyKind::Legacy
        }
    }
}

/// The text between the first `{` and the first `}` of a line, both
/// included.
#[derive(Debug)]
pub enum BraceSlice {
    /// The slice (empty when `}` comes right before `{`).
    Found(String),
    /// The text lacks `{` or `}`.
    Missing,
    /// The first `}` comes more than one character before the first `{`:
    /// the slice has no meaning (slicing such a range is a panic).
    Reversed,
}

/// The predicate "is the character `c`".
pub open spec fn is_char(c: char) -> spec_fn(char) -> bool {
    |x: char| x == c
}

/// The index of the first `c` in `s`.
pub open spec fn index_of(s: Seq<char>, c: char) -> Option<int> {
    first_where(s, is_char(c))
}

/// What `extract_braced` yields for `s`.
pub open spec fn braced_matches(r: BraceSlice, s: Seq<char>) -> bool {
    match (index_of(s, '{'), index_of(s, '}')) {
        (Some(a), Some(b)) => if b + 1 < a {
            r is Reversed
        } else {
            r matches BraceSlice::Found(g) && g@ == s.subrange(a, b + 1)
        },
        _ => r is Missing,
    }
}

/// The index of the first `c` in `cs`.
pub fn find_char(cs: &Vec<char>, c: char) -> (r: Option<usize>)
    ensures
        match index_of(cs@, c) {
            Some(k) => r matches Some(i) && i == k && k < cs@.len() && cs@[k] == c,
            None => r is None,
        },
{
    let ghost p = is_char(c);
    let mut i: usize = 0;
    while i < cs.len()
        invariant
            i <= cs@.len(),
            p == is_char(c),
            forall|j: int| 0 <= j < i ==> !p(#[trigger] cs@[j]),
        decreases cs.len() - i,
    {
        if cs[i] == c {
            assert(p(cs@[i as int]));
            proof {
                lemma_first_where(cs@, p, i as int);
            }
            return Some(i);
        }
        i = i + 1;
    }
    proof {
        lemma_first_where(cs@, p, i as int);
    }
    None
}

/// The text from the first `{` to the first `}` of `cs`.
pub fn extract_braced_chars(cs: &Vec<char>) -> (r: BraceSlice)
    ensures
        braced_matches(r, cs@),
{
    let n = cs.len();
    let oa = find_char(cs, '{');
    let ob = find_char(cs, '}');
    match (oa, ob) {
        (Some(a), Some(b)) => {
            assert(b < n);
            if b + 1 < a {
                BraceSlice::Reversed
            } else {
                let g = slice_chars(cs, a, b + 1);
                BraceSlice::Found(string_from_chars(&g))
            }
        },
        _ => BraceSlice::Missing,
    }
}

/// The braced identifier (such as a GUID) in the output of `bcdedit`.
pub fn extract_braced(text: &str) -> (r: BraceSlice)
    ensures
        braced_matches(r, text@),
{
    let cs = chars_of(text);
    extract_braced_chars(&cs)
}

/// `str::lines`: the pieces between line feeds, without a final empty piece.
pub open spec fn std_lines(s: Seq<char>) -> Seq<Seq<char>>
    decreases s.len(),
{
    if s.len() == 0 {
        Seq::empty()
    } else {
        match index_of(s, '\n') {
            Some(j) => if 0 <= j < s.len() {
                seq![s.take(j)] + std_lines(s.skip(j + 1))
            } else {
                seq![s]
            },
            None => seq![s],
        }
    }
}

/// Whether a trimmed line is a separator made only of dashes.
pub open spec fn is_dash_line(t: Seq<char>) -> bool {
    t.len() > 0 && forall|i: int| 0 <= i < t.len() ==> t[i] == '-'
}

/// The entry identifier while scanning, after line `t`; `None` when the
/// line would have its braces reversed.
pub open spec fn next_guid(cur: Seq<char>, t: Seq<char>) -> Option<Seq<char>> {
    if is_dash_line(t) {
        Some(Seq::empty())
    } else if cur.len() == 0 && index_of(t, '{') is Some && index_of(t, '}') is Some {
        let a = index_of(t, '{')->0;
        let b = index_of(t, '}')->0;
        if b + 1 < a {
            None
        } else {
            Some(t.subrange(a, b + 1))
        }
    } else {
        Some(cur)
    }
}

/// Whether an entry identifier names a removable entry.
pub open spec fn is_removable_guid(g: Seq<char>) -> bool {
    g.len() > 0 && g != "{bootmgr}"@ && g != "{fwbootmgr}"@
}

/// The scan of `bcdedit /enum all /v` output, line by line: the identifier
/// of the current entry and the identifiers found so far of entries that
/// mention `distro`; `None` once a line has its braces reversed.
pub open spec fn scan_entries(lines: Seq<Seq<char>>, distro: Seq<char>) -> Option<(Seq<char>, Seq<Seq<char>>)>
    decreases lines.len(),
{
    if lines.len() == 0 {
        Some((Seq::empty(), Seq::empty()))
    } else {
        match scan_entries(lines.drop_last(), distro) {
            None => None,
            Some((cur, found)) => {
                let t = trim_ws(lines.last());
                if is_dash_line(t) {
                    Some((Seq::empty(), found))
                } else {
                    match next_guid(cur, t) {
                        None => None,
                        Some(g) => if spec_contains(t, distro) && is_removable_guid(g) {
                            Some((g, found.push(g)))
                        } else {
                            Some((g, found))
                        },
                    }
                }
            },
        }
    }
}

/// The views of a list of strings.
pub open spec fn string_views(s: Seq<String>) -> Seq<Seq<char>> {
    s.map_values(|x: String| x@)
}


proof fn lemma_scan_none_sticky(a: Seq<Seq<char>>, b: Seq<Seq<char>>, distro: Seq<char>)
    requires
        scan_entries(a, distro) is None,
    ensures
        scan_entries(a + b, distro) is None,
    decreases b.len(),
{
    if b.len() == 0 {
        assert(a + b == a);
    } else {
        lemma_scan_none_sticky(a, b.drop_last(), distro);
        assert((a + b).drop_last() == a + b.drop_last());
    }
}

/// Whether a trimmed line is a separator made only of dashes.
fn dash_line(t: &Vec<char>) -> (r: bool)
    ensures
        r == is_dash_line(t@),
{
    if t.len() == 0 {
        return false;
    }
    let mut i: usize = 0;
    while i < t.len()
        invariant
            i <= t@.len(),
            forall|j: int| 0 <= j < i ==> t@[j] == '-',
        decreases t.len() - i,
    {
        if t[i] != '-' {
            return false;
        }
        i = i + 1;
    }
    true
}

/// Whether `g` names an entry that may be deleted.
fn removable_guid(g: &Vec<char>) -> (r: bool)
    ensures
        r == is_removable_guid(g@),
{
    let bootmgr = chars_of("{bootmgr}");
    let fwbootmgr = chars_of("{fwbootmgr}");
    g.len() > 0 && !seq_equal(g, &bootmgr) && !seq_equal(g, &fwbootmgr)
}

/// The identifiers of the Windows Boot Manager entries that mention
/// `distro_name`, in the order of the `bcdedit /enum all /v` output: an
/// entry's identifier is the first braced text after a dashed separator;
/// the boot manager entries themselves are never listed. `None` when a line
/// has its braces reversed (the slice would be a panic).
pub fn guids_to_delete(stdout: &str, distro_name: &str) -> (r: Option<Vec<String>>)
    ensures
        match scan_entries(std_lines(stdout@), distro_name@) {
            None => r is None,
            Some((_, found)) => r matches Some(v) && string_views(v@) == found,
        },
{
    let cs = chars_of(stdout);
    let distro = chars_of(distro_name);
    let mut cur: Vec<char> = Vec::new();
    let mut found: Vec<String> = Vec::new();
    let ghost mut done: Seq<Seq<char>> = Seq::empty();
    let mut i: usize = 0;
    assert(cs@.skip(0) == cs@);
    while i < cs.len()
        invariant
            i <= cs@.len(),
            cs@ == stdout@,
            distro@ == distro_name@,
            std_lines(cs@) == done + std_lines(cs@.skip(i as int)),
            scan_entries(done, distro@) == Some((cur@, string_views(found@))),
        decreases cs.len() - i,
    {
        let ghost rest = cs@.skip(i as int);
        let ghost nl = is_char('\n');
        let mut k = i;
        while k < cs.len() && cs[k] != '\n'
            invariant
                i <= k <= cs@.len(),
                rest == cs@.skip(i as int),
                nl == is_char('\n'),
                forall|j: int| 0 <= j < k - i ==> !nl(#[trigger] rest[j]),
            decreases cs.len() - k,
        {
            assert(rest[k - i] == cs@[k as int]);
            k = k + 1;
        }
        proof {
            if k < cs@.len() {
                assert(rest[k - i] == cs@[k as int]);
                assert(nl(rest[k - i]));
            }
            lemma_first_where(rest, nl, k - i);
        }
        let line = slice_chars(&cs, i, k);
        proof {
            if k < cs@.len() {
                assert(line@ == rest.take(k - i));
                assert(rest.skip(k - i + 1) == cs@.skip(k + 1));
                assert(std_lines(rest) == seq![line@] + std_lines(cs@.skip(k + 1)));
            } else {
                assert(line@ == rest);
                assert(std_lines(rest) == seq![line@]);
            }
        }
        let t = trim_chars(&line);
        let ghost old_found = found@;
        let ghost next_done = done.push(line@);
        assert(next_done.drop_last() == done);
        assert(next_done.last() == line@);
        if dash_line(&t) {
            cur = Vec::new();
        } else {
            if cur.len() == 0 {
                let oa = find_char(&t, '{');
                let ob = find_char(&t, '}');
                match (oa, ob) {
                    (Some(a), Some(b)) => {
                        assert(b < t@.len());
                        if b + 1 < a {
                            proof {
                                assert(scan_entries(next_done, distro@) is None);
                                lemma_scan_none_sticky(next_done, std_lines(cs@.skip(i as int)).drop_first(), distro@);
                                assert(std_lines(cs@) == next_done + std_lines(cs@.skip(i as int)).drop_first());
                            }
                            return None;
                        }
                        cur = slice_chars(&t, a, b + 1);
                    },
                    _ => {},
                }
            }
            if contains_chars(&t, &distro) && removable_guid(&cur) {
                found.push(string_from_chars(&cur));
                assert(string_views(found@) == string_views(old_found).push(cur@));
            }
        }
        proof {
            done = next_done;
        }
        if k >= cs.len() {
            i = cs.len();
            assert(cs@.skip(i as int).len() == 0);
            assert(std_lines(cs@.skip(i as int)) == Seq::<Seq<char>>::empty());
            assert(std_lines(cs@) == done + std_lines(cs@.skip(i as int)));
        } else {
            i = k + 1;
            assert(std_lines(cs@) == done + std_lines(cs@.skip(i as int)));
        }
    }
    assert(cs@.skip(i as int).len() == 0);
    assert(std_lines(cs@) == done);
    Some(found)
}


/// The views of a list of argument lists.
pub open spec fn command_views(s: Seq<Vec<String>>) -> Seq<Seq<Seq<char>>> {
    s.map_values(|c: Vec<String>| string_views(c@))
}

/// A string holding `s`.
fn owned(s: &str) -> (r: String)
    ensures
        r@ == s@,
{
    String::from_str(s)
}

/// `a + b` as a string.
fn concat2(a: &str, b: &str) -> (r: String)
    ensures
        r@ == a@ + b@,
{
    let mut out = String::from_str(a);
    push_str(&mut out, b);
    out
}

/// The root directory of a drive: the letter without trailing colons, then
/// `:\`.
pub open spec fn drive_root_text(letter: Seq<char>) -> Seq<char> {
    trim_end_char(letter, ':') + ":\\"@
}

/// The root directory of drive `letter` (`"D:"` or `"D"` give `D:\`).
pub fn drive_root(letter: &str) -> (r: String)
    ensures
        r@ == drive_root_text(letter@),
{
    let cs = chars_of(letter);
    let t = trim_end_char_chars(&cs, ':');
    let mut out = string_from_chars(&t);
    push_str(&mut out, ":\\");
    out
}

/// The `bcdedit` arguments that delete entry `guid`.
pub fn delete_entry_args(guid: &str) -> (r: Vec<String>)
    ensures
        string_views(r@) == seq!["/delete"@, guid@],
{
    let mut out: Vec<String> = Vec::new();
    out.push(owned("/delete"));
    out.push(owned(guid));
    assert(string_views(out@) =~= seq!["/delete"@, guid@]);
    out
}

/// The UEFI strategy: a firmware entry copied from the boot manager and
/// pointed at the EFI loader on the driver partition.
pub struct UefiBootManager;

/// The settings a copied boot manager entry inherits and that are removed.
pub open spec fn inherited_props() -> Seq<Seq<char>> {
    seq!["default"@, "displayorder"@, "toolsdisplayorder"@, "timeout"@, "resumeobject"@, "inherit"@, "locale"@]
}

/// The directory of the default EFI loader on drive `letter`, where the
/// loader `bootx64.efi` is written.
pub open spec fn efi_boot_dir_text(letter: Seq<char>) -> Seq<char> {
    letter + ":\\EFI\\Boot"@
}

/// The commands that configure a copied UEFI entry.
pub open spec fn uefi_entry_plan(guid: Seq<char>, efi_drive: Seq<char>, distro: Seq<char>) -> Seq<Seq<Seq<char>>> {
    seq![
        seq!["/set"@, guid, "device"@, "partition="@ + efi_drive],
        seq!["/set"@, guid, "path"@, "\\EFI\\Boot\\bootx64.efi"@],
        seq!["/set"@, guid, "description"@, distro],
        seq!["/set"@, "{fwbootmgr}"@, "displayorder"@, guid, "/addfirst"@],
        seq!["/set"@, "{fwbootmgr}"@, "default"@, guid],
    ]
}

impl UefiBootManager {
    /// The arguments that copy the boot manager entry under the name `distro`.
    pub fn copy_entry_args(distro: &str) -> (r: Vec<String>)
        ensures
            string_views(r@) == seq!["/copy"@, "{bootmgr}"@, "/d"@, distro@],
    {
        let mut out: Vec<String> = Vec::new();
        out.push(owned("/copy"));
        out.push(owned("{bootmgr}"));
        out.push(owned("/d"));
        out.push(owned(distro));
        assert(string_views(out@) =~= seq!["/copy"@, "{bootmgr}"@, "/d"@, distro@]);
        out
    }

    /// The settings removed from the copied entry, in order.
    pub fn inherited_props() -> (r: Vec<&'static str>)
        ensures
            r@.map_values(|x: &str| x@) == inherited_props(),
    {
        let r = vec!["default", "displayorder", "toolsdisplayorder", "timeout", "resumeobject", "inherit", "locale"];
        assert(r@.map_values(|x: &str| x@) =~= inherited_props());
        r
    }

    /// The arguments that remove setting `prop` from entry `guid`.
    pub fn delete_value_args(guid: &str, prop: &str) -> (r: Vec<String>)
        ensures
            string_views(r@) == seq!["/deletevalue"@, guid@, prop@],
    {
        let mut out: Vec<String> = Vec::new();
        out.push(owned("/deletevalue"));
        out.push(owned(guid));
        out.push(owned(prop));
        assert(string_views(out@) =~= seq!["/deletevalue"@, guid@, prop@]);
        out
    }

    /// The commands, in order, that point entry `guid` at the EFI loader on
    /// `efi_drive`, name it `distro` and make it the first and default
    /// firmware entry.
    pub fn entry_commands(guid: &str, efi_drive: &str, distro: &str) -> (r: Vec<Vec<String>>)
        ensures
            command_views(r@) == uefi_entry_plan(guid@, efi_drive@, distro@),
    {
        let mut c1: Vec<String> = Vec::new();
        c1.push(owned("/set"));
        c1.push(owned(guid));
        c1.push(owned("device"));
        c1.push(concat2("partition=", efi_drive));
        let mut c2: Vec<String> = Vec::new();
        c2.push(owned("/set"));
        c2.push(owned(guid));
        c2.push(owned("path"));
        c2.push(owned("\\EFI\\Boot\\bootx64.efi"));
        let mut c3: Vec<String> = Vec::new();
        c3.push(owned("/set"));
        c3.push(owned(guid));
        c3.push(owned("description"));
        c3.push(owned(distro));
        let mut c4: Vec<String> = Vec::new();
        c4.push(owned("/set"));
        c4.push(owned("{fwbootmgr}"));
        c4.push(owned("displayorder"));
        c4.push(owned(guid));
        c4.push(owned("/addfirst"));
        let mut c5: Vec<String> = Vec::new();
        c5.push(owned("/set"));
        c5.push(owned("{fwbootmgr}"));
        c5.push(owned("default"));
        c5.push(owned(guid));
        let ghost v1 = string_views(c1@);
        let ghost v2 = string_views(c2@);
        let ghost v3 = string_views(c3@);
        let ghost v4 = string_views(c4@);
        let ghost v5 = string_views(c5@);
        assert(v1 =~= seq!["/set"@, guid@, "device"@, "partition="@ + efi_drive@]);
        assert(v2 =~= seq!["/set"@, guid@, "path"@, "\\EFI\\Boot\\bootx64.efi"@]);
        assert(v3 =~= seq!["/set"@, guid@, "description"@, distro@]);
        assert(v4 =~= seq!["/set"@, "{fwbootmgr}"@, "displayorder"@, guid@, "/addfirst"@]);
        assert(v5 =~= seq!["/set"@, "{fwbootmgr}"@, "default"@, guid@]);
        let mut out: Vec<Vec<String>> = Vec::new();
        out.push(c1);
        out.push(c2);
        out.push(c3);
        out.push(c4);
        out.push(c5);
        assert(command_views(out@) =~= uefi_entry_plan(guid@, efi_drive@, distro@));
        out
    }

    /// The directory of the default EFI loader on drive `efi_letter`.
    pub fn efi_boot_dir(efi_letter: &str) -> (r: String)
        ensures
            r@ == efi_letter@ + ":\\EFI\\Boot"@,
            r@ == efi_boot_dir_text(efi_letter@),
    {
        concat2(efi_letter, ":\\EFI\\Boot")
    }

    /// The directory of the filesystem drivers on drive `efi_letter`.
    pub fn efi_driver_dir(efi_letter: &str) -> (r: String)
        ensures
            r@ == efi_letter@ + ":\\EFI\\Rufus"@,
    {
        concat2(efi_letter, ":\\EFI\\Rufus")
    }
}

/// The legacy strategy: a boot-sector entry that chains GRUB4DOS from the
/// Windows partition.
pub struct LegacyBootManager;

/// The commands that configure a legacy chainloading entry.
pub open spec fn legacy_entry_plan(guid: Seq<char>, os_drive: Seq<char>) -> Seq<Seq<Seq<char>>> {
    seq![
        seq!["/set"@, guid, "device"@, "partition="@ + trim_end_char(os_drive, '\\')],
        seq!["/set"@, guid, "path"@, "\\grldr.mbr"@],
        seq!["/displayorder"@, guid, "/addlast"@],
        seq!["/set"@, "{bootmgr}"@, "displaybootmenu"@, "yes"@],
        seq!["/timeout"@, "5"@],
    ]
}

impl LegacyBootManager {
    /// The arguments that create a boot-sector entry named `distro`.
    pub fn create_entry_args(distro: &str) -> (r: Vec<String>)
        ensures
            string_views(r@) == seq!["/create"@, "/d"@, distro@, "/application"@, "bootsector"@],
    {
        let mut out: Vec<String> = Vec::new();
        out.push(owned("/create"));
        out.push(owned("/d"));
        out.push(owned(distro));
        out.push(owned("/application"));
        out.push(owned("bootsector"));
        assert(string_views(out@) =~= seq!["/create"@, "/d"@, distro@, "/application"@, "bootsector"@]);
        out
    }

    /// The commands, in order, that point entry `guid` at `grldr.mbr` on
    /// `os_drive`, list it last in the menu, show the menu and set a
    /// five-second timeout.
    pub fn entry_commands(guid: &str, os_drive: &str) -> (r: Vec<Vec<String>>)
        ensures
            command_views(r@) == legacy_entry_plan(guid@, os_drive@),
    {
        let drive_chars = chars_of(os_drive);
        let drive = trim_end_char_chars(&drive_chars, '\\');
        let mut device = owned("partition=");
        let d = string_from_chars(&drive);
        push_str(&mut device, d.as_str());
        let mut c1: Vec<String> = Vec::new();
        c1.push(owned("/set"));
        c1.push(owned(guid));
        c1.push(owned("device"));
        c1.push(device);
        let mut c2: Vec<String> = Vec::new();
        c2.push(owned("/set"));
        c2.push(owned(guid));
        c2.push(owned("path"));
        c2.push(owned("\\grldr.mbr"));
        let mut c3: Vec<String> = Vec::new();
        c3.push(owned("/displayorder"));
        c3.push(owned(guid));
        c3.push(owned("/addlast"));
        let mut c4: Vec<String> = Vec::new();
        c4.push(owned("/set"));
        c4.push(owned("{bootmgr}"));
        c4.push(owned("displaybootmenu"));
        c4.push(owned("yes"));
        let mut c5: Vec<String> = Vec::new();
        c5.push(owned("/timeout"));
        c5.push(owned("5"));
        let ghost v1 = string_views(c1@);
        let ghost v2 = string_views(c2@);
        let ghost v3 = string_views(c3@);
        let ghost v4 = string_views(c4@);
        let ghost v5 = string_views(c5@);
        assert(v1 =~= seq!["/set"@, guid@, "device"@, "partition="@ + trim_end_char(os_drive@, '\\')]);
        assert(v2 =~= seq!["/set"@, guid@, "path"@, "\\grldr.mbr"@]);
        assert(v3 =~= seq!["/displayorder"@, guid@, "/addlast"@]);
        assert(v4 =~= seq!["/set"@, "{bootmgr}"@, "displaybootmenu"@, "yes"@]);
        assert(v5 =~= seq!["/timeout"@, "5"@]);
        let mut out: Vec<Vec<String>> = Vec::new();
        out.push(c1);
        out.push(c2);
        out.push(c3);
        out.push(c4);
        out.push(c5);
        assert(command_views(out@) =~= legacy_entry_plan(guid@, os_drive@));
        out
    }
}


/// The new firmware entry boots the loader that the installation writes:
/// on any EFI drive letter, the entry's path, taken from the root of that
/// drive, is the file `bootx64.efi` in the directory `efi_boot_dir` names;
/// the path is set on the new entry, whose device is the EFI partition.
pub proof fn lemma_uefi_entry_boots_written_loader(guid: Seq<char>, efi_drive: Seq<char>, distro: Seq<char>, letter: Seq<char>)
    ensures
        uefi_entry_plan(guid, efi_drive, distro)[1].len() == 4,
        uefi_entry_plan(guid, efi_drive, distro)[1][0] == "/set"@,
        uefi_entry_plan(guid, efi_drive, distro)[1][1] == guid,
        uefi_entry_plan(guid, efi_drive, distro)[1][2] == "path"@,
        letter + ":"@ + uefi_entry_plan(guid, efi_drive, distro)[1][3] == efi_boot_dir_text(letter) + "\\bootx64.efi"@,
        uefi_entry_plan(guid, efi_drive, distro)[0][1] == guid,
        uefi_entry_plan(guid, efi_drive, distro)[0][3] == "partition="@ + efi_drive,
{
    reveal_strlit(":");
    reveal_strlit("\\EFI\\Boot\\bootx64.efi");
    reveal_strlit(":\\EFI\\Boot");
    reveal_strlit("\\bootx64.efi");
    assert(letter + ":"@ + "\\EFI\\Boot\\bootx64.efi"@ =~= letter + ":\\EFI\\Boot"@ + "\\bootx64.efi"@);
}

} // verus!
