//! The live medium's own boot configuration: which distribution family the
//! copied payload belongs to, the GRUB4DOS menu written for legacy hosts,
//! and the relabelling of the payload's bootloader configuration files.
use vstd::prelude::*;
use crate::models::PARTITION_LABEL_LIVE;
use crate::boot::string_views;
use crate::models::opt_string_view;
use crate::seqs::{first_where, lemma_first_where};
use crate::text::{
    chars_of, contains_chars, ends_with_chars, push_str, seq_equal, spec_contains, spec_ends_with, spec_starts_with, starts_with_chars,
};

verus! {

/// `pieces[0] + args[0] + pieces[1] + ... + args[n-1] + pieces[n]`: a
/// template whose holes are filled with `args` in order.
pub open spec fn fill(pieces: Seq<Seq<char>>, args: Seq<Seq<char>>) -> Seq<char>
    decreases args.len(),
{
    if args.len() == 0 {
        if pieces.len() > 0 { pieces[0] } else { Seq::empty() }
    } else {
        fill(pieces.drop_last(), args.drop_last()) + args.last() + pieces.last()
    }
}

/// The views of a list of string slices.
pub open spec fn str_views(s: Seq<&str>) -> Seq<Seq<char>> {
    s.map_values(|x: &str| x@)
}

/// Fills the template `pieces` with `args`.
pub fn fill_template(pieces: &Vec<&str>, args: &Vec<&str>) -> (r: String)
    requires
        pieces.len() == args.len() + 1,
    ensures
        r@ == fill(str_views(pieces@), str_views(args@)),
{
    let ghost p = str_views(pieces@);
    let ghost a = str_views(args@);
    let mut out = String::new();
    push_str(&mut out, pieces[0]);
    assert(p.take(1).len() == 1);
    assert(fill(p.take(1), a.take(0)) == p.take(1)[0]);
    let mut i: usize = 0;
    while i < args.len()
        invariant
            pieces.len() == args.len() + 1,
            p == str_views(pieces@),
            a == str_views(args@),
            i <= args.len(),
            out@ == fill(p.take(i + 1), a.take(i as int)),
        decreases args.len() - i,
    {
        push_str(&mut out, args[i]);
        push_str(&mut out, pieces[i + 1]);
        assert(p.take(i + 2).drop_last() =~= p.take(i + 1));
        assert(a.take(i + 1).drop_last() =~= a.take(i as int));
        i = i + 1;
    }
    assert(p.take(args.len() + 1) =~= p);
    assert(a.take(args.len() as int) =~= a);
    out
}

/// The fixed head of the menu: default entry, timeout and colours.
pub const MENU_HEADER: &'static str = "default 0\ntimeout 5\ncolor normal=white/black highlight=black/light-gray\n\n\n";
/// What follows the last line of the entries.
pub const MENU_TAIL: &'static str = "\n                ";
/// The casper entry up to its initrd file name.
pub const UBUNTU_ENTRY: &'static str = "title Project Isekai\n                    find --set-root /casper/vmlinuz\n                    kernel /casper/vmlinuz boot=casper live-media-path=/casper quiet splash ---\n                    initrd /casper/";
/// The casper fallback entry up to its initrd file name.
pub const UBUNTU_FALLBACK: &'static str = "\n\n                    title Project Isekai (Fallback)\n                    find --set-root /casper/vmlinuz\n                    kernel /casper/vmlinuz boot=casper live-media-path=/casper nomodeset ---\n                    initrd /casper/";
/// The whole entry written when the payload was not recognised.
pub const UNKNOWN_ENTRY: &'static str = "title Project Isekai\n                    find --set-root /casper/vmlinuz\n                    kernel /casper/vmlinuz boot=casper live-media-path=/casper quiet splash ---\n                    initrd /casper/initrd.lz\n                ";
/// The archiso entry up to its kernel path.
pub const ARCH_ENTRY: &'static str = "title Project Isekai\n                    find --set-root ";
/// The archiso fallback entry up to its kernel path.
pub const ARCH_FALLBACK: &'static str = "\n\n                    title Project Isekai (Fallback)\n                    find --set-root ";
/// The archiso arguments before the volume label.
pub const ARCH_LABEL_ARG: &'static str = " archisobasedir=arch archisolabel=";
/// The start of a kernel line.
pub const KERNEL_LINE: &'static str = "\n                    kernel ";
/// The end of a quiet kernel line and the start of the initrd line.
pub const QUIET_INITRD: &'static str = " quiet splash\n                    initrd ";
/// The end of a nomodeset kernel line and the start of the initrd line.
pub const NOMODESET_INITRD: &'static str = " nomodeset\n                    initrd ";
/// The live desktop entry up to its kernel path.
pub const FEDORA_LIVE: &'static str = "title Project Isekai (Live Desktop Mode)\n                    find --set-root ";
/// The live desktop fallback entry up to its kernel path.
pub const FEDORA_LIVE_FALLBACK: &'static str = "\n\n                    title Project Isekai (Fallback - Live Desktop Mode)\n                    find --set-root ";
/// The installer entry up to its kernel path.
pub const FEDORA_INSTALLER: &'static str = "\n\n                    title Project Isekai (Installer Mode - 8GB+ RAM Recommended)\n                    find --set-root ";
/// The installer fallback entry up to its kernel path.
pub const FEDORA_INSTALLER_FALLBACK: &'static str = "\n\n                    title Project Isekai (Fallback - Installer Mode)\n                    find --set-root ";
/// The dracut live root argument before the volume label.
pub const LIVE_LABEL_ARG: &'static str = " root=live:LABEL=";
/// The end of a live desktop kernel line and the start of the initrd line.
pub const LIVE_QUIET_INITRD: &'static str = " rd.live.image quiet splash\n                    initrd ";
/// The end of a live desktop fallback kernel line and the start of the initrd line.
pub const LIVE_NOMODESET_INITRD: &'static str = " rd.live.image nomodeset\n                    initrd ";
/// The end of an installer kernel line and the start of the initrd line.
pub const RAM_QUIET_INITRD: &'static str = " rd.live.image rd.live.ram=1 quiet splash\n                    initrd ";
/// The end of an installer fallback kernel line and the start of the initrd line.
pub const RAM_NOMODESET_INITRD: &'static str = " rd.live.image rd.live.ram=1 nomodeset\n                    initrd ";

/// The distribution family of a copied payload, and the boot files the
/// menu names for it.
#[derive(Debug, Clone, PartialEq, Eq)]
pub enum IsoFlavor {
    /// A casper medium; the initrd file name inside `/casper`.
    Ubuntu { initrd_file: String },
    /// An archiso medium; the initrd field may list microcode images first.
    Arch { kernel_path: String, initrd_path: String },
    /// A dracut live medium.
    Fedora { kernel_path: String, initrd_path: String },
    /// Nothing recognised.
    Unknown,
}

/// The casper template.
pub open spec fn ubuntu_pieces() -> Seq<Seq<char>> {
    seq![UBUNTU_ENTRY@, UBUNTU_FALLBACK@, MENU_TAIL@]
}

/// The archiso template.
pub open spec fn arch_pieces() -> Seq<Seq<char>> {
    seq![
        ARCH_ENTRY@, KERNEL_LINE@, ARCH_LABEL_ARG@, QUIET_INITRD@,
        ARCH_FALLBACK@, KERNEL_LINE@, ARCH_LABEL_ARG@, NOMODESET_INITRD@, MENU_TAIL@,
    ]
}

/// The dracut live template.
pub open spec fn fedora_pieces() -> Seq<Seq<char>> {
    seq![
        FEDORA_LIVE@, KERNEL_LINE@, LIVE_LABEL_ARG@, LIVE_QUIET_INITRD@,
        FEDORA_LIVE_FALLBACK@, KERNEL_LINE@, LIVE_LABEL_ARG@, LIVE_NOMODESET_INITRD@,
        FEDORA_INSTALLER@, KERNEL_LINE@, LIVE_LABEL_ARG@, RAM_QUIET_INITRD@,
        FEDORA_INSTALLER_FALLBACK@, KERNEL_LINE@, LIVE_LABEL_ARG@, RAM_NOMODESET_INITRD@, MENU_TAIL@,
    ]
}

/// One entry's arguments: kernel (twice), live label, initrd.
pub open spec fn entry_args(kernel: Seq<char>, initrd: Seq<char>) -> Seq<Seq<char>> {
    seq![kernel, kernel, PARTITION_LABEL_LIVE@, initrd]
}

/// The entries of the menu for a payload of flavour `f`.
pub open spec fn menu_entries(f: IsoFlavor) -> Seq<char> {
    match f {
        IsoFlavor::Ubuntu { initrd_file } => fill(ubuntu_pieces(), seq![initrd_file@, initrd_file@]),
        IsoFlavor::Arch { kernel_path, initrd_path } => fill(
            arch_pieces(),
            entry_args(kernel_path@, initrd_path@) + entry_args(kernel_path@, initrd_path@),
        ),
        IsoFlavor::Fedora { kernel_path, initrd_path } => {
            let e = entry_args(kernel_path@, initrd_path@);
            fill(fedora_pieces(), e + e + e + e)
        },
        IsoFlavor::Unknown => UNKNOWN_ENTRY@,
    }
}

/// The GRUB4DOS `menu.lst` for a payload of flavour `f`.
pub open spec fn menu_text(f: IsoFlavor) -> Seq<char> {
    MENU_HEADER@ + menu_entries(f)
}

/// The `menu.lst` that chains the live system on a legacy host.
pub fn menu_lst(flavor: &IsoFlavor) -> (r: String)
    ensures
        r@ == menu_text(*flavor),
{
    let mut out = String::from_str(MENU_HEADER);
    let entries = match flavor {
        IsoFlavor::Ubuntu { initrd_file } => {
            let pieces = vec![UBUNTU_ENTRY, UBUNTU_FALLBACK, MENU_TAIL];
            let args = vec![initrd_file.as_str(), initrd_file.as_str()];
            assert(str_views(pieces@) =~= ubuntu_pieces());
            assert(str_views(args@) =~= seq![initrd_file@, initrd_file@]);
            fill_template(&pieces, &args)
        },
        IsoFlavor::Arch { kernel_path, initrd_path } => {
            let k = kernel_path.as_str();
            let i = initrd_path.as_str();
            let pieces = vec![
                ARCH_ENTRY, KERNEL_LINE, ARCH_LABEL_ARG, QUIET_INITRD,
                ARCH_FALLBACK, KERNEL_LINE, ARCH_LABEL_ARG, NOMODESET_INITRD, MENU_TAIL,
            ];
            let args = vec![k, k, PARTITION_LABEL_LIVE, i, k, k, PARTITION_LABEL_LIVE, i];
            assert(str_views(pieces@) =~= arch_pieces());
            assert(str_views(args@) =~= entry_args(k@, i@) + entry_args(k@, i@));
            fill_template(&pieces, &args)
        },
        IsoFlavor::Fedora { kernel_path, initrd_path } => {
            let k = kernel_path.as_str();
            let i = initrd_path.as_str();
            let pieces = vec![
                FEDORA_LIVE, KERNEL_LINE, LIVE_LABEL_ARG, LIVE_QUIET_INITRD,
                FEDORA_LIVE_FALLBACK, KERNEL_LINE, LIVE_LABEL_ARG, LIVE_NOMODESET_INITRD,
                FEDORA_INSTALLER, KERNEL_LINE, LIVE_LABEL_ARG, RAM_QUIET_INITRD,
                FEDORA_INSTALLER_FALLBACK, KERNEL_LINE, LIVE_LABEL_ARG, RAM_NOMODESET_INITRD, MENU_TAIL,
            ];
            let args = vec![
                k, k, PARTITION_LABEL_LIVE, i, k, k, PARTITION_LABEL_LIVE, i,
                k, k, PARTITION_LABEL_LIVE, i, k, k, PARTITION_LABEL_LIVE, i,
            ];
            let ghost e = entry_args(k@, i@);
            assert(str_views(pieces@) =~= fedora_pieces());
            assert(str_views(args@) =~= e + e + e + e);
            fill_template(&pieces, &args)
        },
        IsoFlavor::Unknown => String::from_str(UNKNOWN_ENTRY),
    };
    push_str(&mut out, entries.as_str());
    out
}

/// What the probe of a copied payload found, as the flavour decision reads
/// it. Each flag says whether the file or directory exists under the
/// payload's root.
#[derive(Debug, Clone)]
pub struct PayloadProbe {
    /// `casper`
    pub has_casper: bool,
    /// `casper\initrd.lz`
    pub has_initrd_lz: bool,
    /// `casper\initrd.gz`
    pub has_initrd_gz: bool,
    /// `LiveOS`
    pub has_live_os: bool,
    /// For each pair of `fedora_kernel_candidates`, in order, whether its
    /// kernel exists (missing entries count as absent).
    pub fedora_kernels: Vec<bool>,
    /// `arch`
    pub has_arch: bool,
    /// The file names in `arch\boot\x86_64`, in the order they were read.
    pub arch_boot_files: Vec<String>,
    /// `arch\boot\intel-ucode.img`
    pub has_intel_ucode: bool,
    /// `arch\boot\amd-ucode.img`
    pub has_amd_ucode: bool,
}

/// The kernels a dracut live medium may carry, most specific first.
pub open spec fn fedora_kernels() -> Seq<Seq<char>> {
    seq![
        "boot/x86_64/loader/linux"@, "images/pxeboot/vmlinuz"@, "isolinux/vmlinuz"@, "boot/vmlinuz"@,
        "EFI/BOOT/vmlinuz"@,
    ]
}

/// The initrd that goes with each of `fedora_kernels`.
pub open spec fn fedora_initrds() -> Seq<Seq<char>> {
    seq![
        "boot/x86_64/loader/initrd"@, "images/pxeboot/initrd.img"@, "isolinux/initrd.img"@, "boot/initrd.img"@,
        "EFI/BOOT/initrd.img"@,
    ]
}

/// The kernel and initrd pairs probed on a dracut live medium, relative to
/// its root, in the order they are tried.
pub fn fedora_kernel_candidates() -> (r: Vec<(&'static str, &'static str)>)
    ensures
        r@.len() == 5,
        forall|j: int| 0 <= j < 5 ==> (#[trigger] r@[j]).0@ == fedora_kernels()[j] && r@[j].1@ == fedora_initrds()[j],
{
    vec![
        ("boot/x86_64/loader/linux", "boot/x86_64/loader/initrd"),
        ("images/pxeboot/vmlinuz", "images/pxeboot/initrd.img"),
        ("isolinux/vmlinuz", "isolinux/initrd.img"),
        ("boot/vmlinuz", "boot/initrd.img"),
        ("EFI/BOOT/vmlinuz", "EFI/BOOT/initrd.img"),
    ]
}

/// The predicate "is true".
pub open spec fn holds() -> spec_fn(bool) -> bool {
    |b: bool| b
}

/// The kernel and initrd of a dracut live medium: the first candidate whose
/// kernel exists, as an absolute path, else the pxeboot pair.
pub open spec fn fedora_boot_paths(found: Seq<bool>) -> (Seq<char>, Seq<char>) {
    let n = if found.len() < 5 { found.len() as int } else { 5 };
    match first_where(found.take(n), holds()) {
        Some(j) => ("/"@ + fedora_kernels()[j], "/"@ + fedora_initrds()[j]),
        None => ("/images/pxeboot/vmlinuz"@, "/images/pxeboot/initrd.img"@),
    }
}

/// The initrd file of a casper medium.
pub open spec fn ubuntu_initrd(p: PayloadProbe) -> Seq<char> {
    if p.has_initrd_lz {
        "initrd.lz"@
    } else if p.has_initrd_gz {
        "initrd.gz"@
    } else {
        "initrd"@
    }
}

/// An archiso kernel that is not the LTS one.
pub open spec fn is_arch_kernel(f: Seq<char>) -> bool {
    spec_starts_with(f, "vmlinuz-linux"@) && !spec_contains(f, "-lts"@)
}

/// An archiso initramfs image that is not the LTS one.
pub open spec fn is_arch_initrd(f: Seq<char>) -> bool {
    spec_starts_with(f, "initramfs-linux"@) && !spec_contains(f, "-lts"@) && spec_ends_with(f, ".img"@)
}

/// The archiso kernel and initramfs after reading `files` in order: the
/// last matching name of each kind wins.
pub open spec fn arch_boot_paths(files: Seq<Seq<char>>) -> (Seq<char>, Seq<char>)
    decreases files.len(),
{
    if files.len() == 0 {
        ("/arch/boot/x86_64/vmlinuz-linux"@, "/arch/boot/x86_64/initramfs-linux.img"@)
    } else {
        let prev = arch_boot_paths(files.drop_last());
        let f = files.last();
        if is_arch_kernel(f) {
            ("/arch/boot/x86_64/"@ + f, prev.1)
        } else if is_arch_initrd(f) {
            (prev.0, "/arch/boot/x86_64/"@ + f)
        } else {
            prev
        }
    }
}

/// The microcode images loaded before the archiso initramfs.
pub open spec fn ucode_prefix(p: PayloadProbe) -> Seq<char> {
    (if p.has_intel_ucode { "/arch/boot/intel-ucode.img "@ } else { Seq::empty() })
        + (if p.has_amd_ucode { "/arch/boot/amd-ucode.img "@ } else { Seq::empty() })
}

/// Whether `f` is the flavour the probe `p` shows: casper first, then
/// dracut live, then archiso.
pub open spec fn describes(f: IsoFlavor, p: PayloadProbe) -> bool {
    if p.has_casper {
        f matches IsoFlavor::Ubuntu { initrd_file } && initrd_file@ == ubuntu_initrd(p)
    } else if p.has_live_os {
        f matches IsoFlavor::Fedora { kernel_path, initrd_path }
            && (kernel_path@, initrd_path@) == fedora_boot_paths(p.fedora_kernels@)
    } else if p.has_arch {
        f matches IsoFlavor::Arch { kernel_path, initrd_path }
            && kernel_path@ == arch_boot_paths(string_views(p.arch_boot_files@)).0
            && initrd_path@ == ucode_prefix(p) + arch_boot_paths(string_views(p.arch_boot_files@)).1
    } else {
        f is Unknown
    }
}

/// `"/" + s`
fn rooted(s: &str) -> (r: String)
    ensures
        r@ == "/"@ + s@,
{
    let mut out = String::from_str("/");
    push_str(&mut out, s);
    out
}

/// The kernel and initrd of a dracut live medium.
fn fedora_paths(found: &Vec<bool>) -> (r: (String, String))
    ensures
        (r.0@, r.1@) == fedora_boot_paths(found@),
{
    let cands = fedora_kernel_candidates();
    let n: usize = if found.len() < 5 { found.len() } else { 5 };
    let ghost t = found@.take(n as int);
    let mut j: usize = 0;
    while j < n
        invariant
            n == (if found@.len() < 5 { found@.len() as int } else { 5 }),
            t == found@.take(n as int),
            cands@.len() == 5,
            forall|q: int| 0 <= q < 5 ==> (#[trigger] cands@[q]).0@ == fedora_kernels()[q] && cands@[q].1@ == fedora_initrds()[q],
            j <= n,
            forall|q: int| 0 <= q < j ==> !holds()(#[trigger] t[q]),
        decreases n - j,
    {
        if found[j] {
            assert(holds()(t[j as int]));
            proof {
                lemma_first_where(t, holds(), j as int);
            }
            let (k, i) = cands[j];
            assert(k@ == fedora_kernels()[j as int] && i@ == fedora_initrds()[j as int]);

            return (rooted(k), rooted(i));
        }
        j = j + 1;
    }
    proof {
        lemma_first_where(t, holds(), n as int);
    }
    (String::from_str("/images/pxeboot/vmlinuz"), String::from_str("/images/pxeboot/initrd.img"))
}

/// The archiso kernel and initramfs named by `files`.
fn arch_paths(files: &Vec<String>) -> (r: (String, String))
    ensures
        (r.0@, r.1@) == arch_boot_paths(string_views(files@)),
{
    let ghost v = string_views(files@);
    let kernel_prefix = chars_of("vmlinuz-linux");
    let initrd_prefix = chars_of("initramfs-linux");
    let lts = chars_of("-lts");
    let img = chars_of(".img");
    let mut k = String::from_str("/arch/boot/x86_64/vmlinuz-linux");
    let mut i = String::from_str("/arch/boot/x86_64/initramfs-linux.img");
    let mut j: usize = 0;
    assert(v.take(0).len() == 0);
    while j < files.len()
        invariant
            v == string_views(files@),
            kernel_prefix@ == "vmlinuz-linux"@,
            initrd_prefix@ == "initramfs-linux"@,
            lts@ == "-lts"@,
            img@ == ".img"@,
            j <= files.len(),
            (k@, i@) == arch_boot_paths(v.take(j as int)),
        decreases files.len() - j,
    {
        let f = chars_of(files[j].as_str());
        assert(v.take(j + 1).drop_last() =~= v.take(j as int));
        assert(v.take(j + 1).last() == f@);
        if starts_with_chars(&f, &kernel_prefix) && !contains_chars(&f, &lts) {
            k = String::from_str("/arch/boot/x86_64/");
            push_str(&mut k, files[j].as_str());
        } else if starts_with_chars(&f, &initrd_prefix) && !contains_chars(&f, &lts) && ends_with_chars(&f, &img) {
            i = String::from_str("/arch/boot/x86_64/");
            push_str(&mut i, files[j].as_str());
        }
        j = j + 1;
    }
    assert(v.take(files.len() as int) =~= v);
    (k, i)
}

/// The flavour of a payload, decided from what its probe found.
pub fn decide_flavor(probe: &PayloadProbe) -> (r: IsoFlavor)
    ensures
        describes(r, *probe),
{
    if probe.has_casper {
        let initrd = if probe.has_initrd_lz {
            String::from_str("initrd.lz")
        } else if probe.has_initrd_gz {
            String::from_str("initrd.gz")
        } else {
            String::from_str("initrd")
        };
        return IsoFlavor::Ubuntu { initrd_file: initrd };
    }
    if probe.has_live_os {
        let (k, i) = fedora_paths(&probe.fedora_kernels);
        return IsoFlavor::Fedora { kernel_path: k, initrd_path: i };
    }
    if probe.has_arch {
        let (k, i) = arch_paths(&probe.arch_boot_files);
        let mut initrd = String::new();
        if probe.has_intel_ucode {
            push_str(&mut initrd, "/arch/boot/intel-ucode.img ");
        }
        if probe.has_amd_ucode {
            push_str(&mut initrd, "/arch/boot/amd-ucode.img ");
        }
        push_str(&mut initrd, i.as_str());
        return IsoFlavor::Arch { kernel_path: k, initrd_path: initrd };
    }
    IsoFlavor::Unknown
}

/// The text of a capture group; a group that took no part in the match
/// counts as empty.
pub open spec fn group_text(g: Option<&str>) -> Seq<char> {
    match g {
        Some(t) => t@,
        None => Seq::empty(),
    }
}

/// `prefix + label + suffix`: what a matched label setting becomes, from
/// the match's first and second capture groups (either may be absent).
pub fn label_replacement(prefix: Option<&str>, label: &str, suffix: Option<&str>) -> (r: String)
    ensures
        r@ == group_text(prefix) + label@ + group_text(suffix),
{
    let mut out = String::new();
    if let Some(p) = prefix {
        push_str(&mut out, p);
    }
    push_str(&mut out, label);
    if let Some(q) = suffix {
        push_str(&mut out, q);
    }
    assert(out@ =~= group_text(prefix) + label@ + group_text(suffix));
    out
}

/// The text that `regex::Regex::replace_all` makes of `content` when the
/// regular expression `pattern` is compiled and each of its matches is
/// replaced by `label_replacement` of its first group, `label` and its
/// second group (an absent group counts as empty); `None` where nothing
/// matches or `pattern` does not compile.
pub uninterp spec fn label_patch(pattern: Seq<char>, content: Seq<char>, label: Seq<char>) -> Option<Seq<char>>;

/// Compiles `pattern` with `regex::Regex::new` and relabels its matches in
/// `content` with `regex::Regex::replace_all`. Claims only that the result
/// is `label_patch` of the arguments: the owned text when `replace_all`
/// replaced at least one match, `None` when it handed `content` back
/// borrowed or the pattern did not compile.
#[verifier::external_body]
fn replace_labels(pattern: &str, content: &str, label: &str) -> (r: Option<String>)
    ensures
        opt_string_view(r) == label_patch(pattern@, content@, label@),
{
    let re = match regex::Regex::new(pattern) {
        Ok(re) => re,
        Err(_) => return None,
    };
    match re.replace_all(content, |caps: &regex::Captures| {
        label_replacement(caps.get(1).map(|m| m.as_str()), label, caps.get(2).map(|m| m.as_str()))
    }) {
        std::borrow::Cow::Owned(s) => Some(s),
        std::borrow::Cow::Borrowed(_) => None,
    }
}

/// The regular expressions that find a volume label in a bootloader
/// configuration; each keeps its first group (and its second, where it has
/// one) and replaces the label between them.
pub open spec fn config_patterns() -> Seq<Seq<char>> {
    seq![
        r"(?m)(root=live:(?:CD)?LABEL=)[^\s\\]+"@,
        r"(?m)(set\s+isolabel=)[^\s]+"@,
        r"(?m)(CDLABEL=)[^\s\\]+"@,
        r"(?m)(archiso(?:search)?label=)[^\s\\]+"@,
        r"(?m)(archisodevice=/dev/disk/by-label/)[^\s\\]+"@,
        r"(?m)(search\s+[^\r\n]*?--(?:label|fs-label|-l)\s+[']?)[^'\s]+([']?)"@,
        r"(?m)(search\s+[^\r\n]*?--(?:label|fs-label|-l)\s+[`]?)[^`\s]+([`]?)"@,
        r"(?m)(search\s+[^\r\n]*?--(?:label|fs-label|-l)\s+[\x22]?)[^\x22\s]+([\x22]?)"@,
    ]
}

/// The label patterns, in the order they are applied.
pub fn boot_config_patterns() -> (r: Vec<&'static str>)
    ensures
        str_views(r@) == config_patterns(),
{
    let r = vec![
        r"(?m)(root=live:(?:CD)?LABEL=)[^\s\\]+",
        r"(?m)(set\s+isolabel=)[^\s]+",
        r"(?m)(CDLABEL=)[^\s\\]+",
        r"(?m)(archiso(?:search)?label=)[^\s\\]+",
        r"(?m)(archisodevice=/dev/disk/by-label/)[^\s\\]+",
        r"(?m)(search\s+[^\r\n]*?--(?:label|fs-label|-l)\s+[']?)[^'\s]+([']?)",
        r"(?m)(search\s+[^\r\n]*?--(?:label|fs-label|-l)\s+[`]?)[^`\s]+([`]?)",
        r"(?m)(search\s+[^\r\n]*?--(?:label|fs-label|-l)\s+[\x22]?)[^\x22\s]+([\x22]?)",
    ];
    assert(str_views(r@) =~= config_patterns());
    r
}

/// One pattern's effect on the text so far and on whether anything was
/// replaced yet: a replacement is taken, even one equal to the old text.
pub open spec fn patch_step(state: (Seq<char>, bool), result: Option<Seq<char>>) -> (Seq<char>, bool) {
    match result {
        Some(t) => (t, true),
        None => state,
    }
}

/// The text after applying `patterns` in order, and whether any matched.
pub open spec fn patched_by(patterns: Seq<Seq<char>>, content: Seq<char>, label: Seq<char>) -> (Seq<char>, bool)
    decreases patterns.len(),
{
    if patterns.len() == 0 {
        (content, false)
    } else {
        let prev = patched_by(patterns.drop_last(), content, label);
        patch_step(prev, label_patch(patterns.last(), prev.0, label))
    }
}

/// Takes one pattern's result into the text and the patched flag.
pub fn apply_patch_result(current: String, patched: bool, result: Option<String>) -> (r: (String, bool))
    ensures
        (r.0@, r.1) == patch_step((current@, patched), opt_string_view(result)),
{
    match result {
        Some(t) => (t, true),
        None => (current, patched),
    }
}

/// Relabels every volume label setting of a bootloader configuration with
/// `label`; the flag says whether any pattern matched (and the file is to
/// be written back).
pub fn patch_config_content(content: &str, label: &str) -> (r: (String, bool))
    ensures
        (r.0@, r.1) == patched_by(config_patterns(), content@, label@),
{
    let patterns = boot_config_patterns();
    let ghost ps = config_patterns();
    let mut current = String::from_str(content);
    let mut patched = false;
    let mut j: usize = 0;
    while j < patterns.len()
        invariant
            str_views(patterns@) == ps,
            ps == config_patterns(),
            j <= patterns.len(),
            (current@, patched) == patched_by(ps.take(j as int), content@, label@),
        decreases patterns.len() - j,
    {
        assert(ps.take(j + 1).drop_last() =~= ps.take(j as int));
        assert(ps.take(j + 1).last() == patterns[j as int]@);
        let result = replace_labels(patterns[j], current.as_str(), label);
        let (c, p) = apply_patch_result(current, patched, result);
        current = c;
        patched = p;
        j = j + 1;
    }
    assert(ps.take(patterns.len() as int) =~= ps);
    (current, patched)
}

/// The configuration files probed under the payload's root, in order.
pub open spec fn config_search_paths() -> Seq<Seq<char>> {
    seq![
        "EFI\\BOOT\\grub.cfg"@, "EFI\\BOOT\\BOOT.conf"@, "boot\\grub2\\grub.cfg"@, "boot\\grub\\grub.cfg"@,
        "isolinux\\isolinux.cfg"@, "isolinux\\grub.conf"@, "syslinux\\syslinux.cfg"@,
        "syslinux\\archiso_sys-linux.cfg"@, "syslinux\\archiso_pxe-linux.cfg"@, "syslinux\\archiso_sys.cfg"@,
        "syslinux\\archiso_pxe.cfg"@,
    ]
}

/// The bootloader configuration files looked for on a payload, relative
/// to its root; `loader\entries` is searched besides.
pub fn boot_config_search_paths() -> (r: Vec<&'static str>)
    ensures
        str_views(r@) == config_search_paths(),
{
    let r = vec![
        "EFI\\BOOT\\grub.cfg", "EFI\\BOOT\\BOOT.conf", "boot\\grub2\\grub.cfg", "boot\\grub\\grub.cfg",
        "isolinux\\isolinux.cfg", "isolinux\\grub.conf", "syslinux\\syslinux.cfg",
        "syslinux\\archiso_sys-linux.cfg", "syslinux\\archiso_pxe-linux.cfg", "syslinux\\archiso_sys.cfg",
        "syslinux\\archiso_pxe.cfg",
    ];
    assert(str_views(r@) =~= config_search_paths());
    r
}

/// The index of the last `.` in `s`.
pub open spec fn last_dot(s: Seq<char>) -> Option<int>
    decreases s.len(),
{
    if s.len() == 0 {
        None
    } else if s.last() == '.' {
        Some(s.len() - 1)
    } else {
        last_dot(s.drop_last())
    }
}

/// Whether a file name's extension, as `Path::extension` reads it (the text
/// after the last dot, where that dot is not the name's first character),
/// is `conf`.
pub open spec fn has_conf_extension(name: Seq<char>) -> bool {
    match last_dot(name) {
        Some(i) => i > 0 && name.skip(i + 1) == "conf"@,
        None => false,
    }
}

/// Whether a boot loader entry file is a `.conf` file.
pub fn is_conf_file(name: &str) -> (r: bool)
    ensures
        r == has_conf_extension(name@),
{
    let cs = chars_of(name);
    let mut i: usize = cs.len();
    assert(cs@.take(cs@.len() as int) =~= cs@);
    while i > 0
        invariant
            cs@ == name@,
            i <= cs@.len(),
            last_dot(cs@) == last_dot(cs@.take(i as int)),
        decreases i,
    {
        assert(cs@.take(i as int).drop_last() =~= cs@.take(i - 1));
        if cs[i - 1] == '.' {
            assert(cs@.take(i as int).last() == '.');
            assert(last_dot(cs@) == Some(i - 1));
            if i == 1 {
                return false;
            }
            let suffix = chars_of("conf");
            let mut tail: Vec<char> = Vec::new();
            let mut k: usize = i;
            while k < cs.len()
                invariant
                    i <= k <= cs@.len(),
                    tail@ == cs@.subrange(i as int, k as int),
                decreases cs.len() - k,
            {
                tail.push(cs[k]);
                assert(cs@.subrange(i as int, k + 1) =~= tail@);
                k = k + 1;
            }
            assert(cs@.skip(i as int) =~= tail@);
            return seq_equal(&tail, &suffix);
        }
        i = i - 1;
    }
    false
}

} // verus!
