//! Typed model of the device tree that `lsblk --json` reports, with helpers to
//! inspect the hierarchy, separate the root-filesystem disk from the others,
//! and find devices by name.
use vstd::prelude::*;
use crate::text::{
    ascii_lower_range, ascii_lower_seq, chars_of, count_char, count_occurrences, decimal, decimal_string, is_digit,
    parse_unsigned, push_str, same_text, seq_equal, spec_parse_unsigned, string_from_chars, string_push,
    trim_bounds, trim_start_from, trim_start_ws, trim_ws, all_digits, lemma_decimal_digits, lemma_parse_decimal,
    digits_value, lemma_trim_end_skip, lemma_trim_start_skip, spec_is_whitespace, trim_end_ws,
};

verus! {

/// Major and minor device numbers (`maj:min` in `lsblk` output).
#[derive(Debug, Clone, Copy, PartialEq, Eq, Structural, Hash, PartialOrd, Ord)]
pub struct MajMin {
    /// The major device number.
    pub major: u32,
    /// The minor device number.
    pub minor: u32,
}

/// Error for a `maj:min` text that is not of the form `<major>:<minor>`; it
/// carries the rejected text.
#[derive(Debug)]
pub struct ParseMajMinError(pub String);

/// Whether `k` is the first index of `c` in `s`.
pub open spec fn is_first_index(s: Seq<char>, c: char, k: int) -> bool {
    &&& 0 <= k < s.len()
    &&& s[k] == c
    &&& forall|j: int| 0 <= j < k ==> s[j] != c
}

/// What `MajMin::from_str` yields for the text `s`: split at the first `:`,
/// no further `:` allowed, both halves parsed as `u32` by `str::parse`.
pub open spec fn spec_parse_maj_min(s: Seq<char>) -> Option<(u32, u32)> {
    if exists|k: int| is_first_index(s, ':', k) {
        let k = choose|k: int| is_first_index(s, ':', k);
        let major = s.take(k);
        let minor = s.skip(k + 1);
        if minor.contains(':') {
            None
        } else {
            match (spec_parse_unsigned(major, u32::MAX as nat), spec_parse_unsigned(minor, u32::MAX as nat)) {
                (Some(a), Some(b)) => Some((a as u32, b as u32)),
                _ => None,
            }
        }
    } else {
        None
    }
}

/// The `<major>:<minor>` rendering of a device number pair.
pub open spec fn maj_min_text(major: u32, minor: u32) -> Seq<char> {
    decimal(major as nat) + seq![':'] + decimal(minor as nat)
}

impl MajMin {
    /// Constructs a `MajMin` from its parts.
    pub fn new(major: u32, minor: u32) -> (r: Self)
        ensures
            r.major == major,
            r.minor == minor,
    {
        MajMin { major, minor }
    }

    /// Parses `"<major>:<minor>"`; any other shape is rejected with the
    /// input text.
    pub fn parse(s: &str) -> (r: Result<MajMin, ParseMajMinError>)
        ensures
            match spec_parse_maj_min(s@) {
                Some((a, b)) => r matches Ok(m) && m.major == a && m.minor == b,
                None => r matches Err(e) && e.0@ == s@,
            },
    {
        let cs = chars_of(s);
        let mut k: usize = 0;
        while k < cs.len() && cs[k] != ':'
            invariant
                k <= cs@.len(),
                forall|j: int| 0 <= j < k ==> cs@[j] != ':',
            decreases cs.len() - k,
        {
            k = k + 1;
        }
        if k == cs.len() {
            assert(!exists|k: int| is_first_index(s@, ':', k));
            return Err(ParseMajMinError(string_from_chars(&cs)));
        }
        assert(is_first_index(s@, ':', k as int));
        proof {
            let kk = choose|kk: int| is_first_index(s@, ':', kk);
            assert(kk == k);
        }
        let mut j = k + 1;
        while j < cs.len()
            invariant
                k < j <= cs@.len(),
                cs@ == s@,
                is_first_index(s@, ':', k as int),
                (choose|kk: int| is_first_index(s@, ':', kk)) == k,
                forall|q: int| k < q < j ==> cs@[q] != ':',
            decreases cs.len() - j,
        {
            if cs[j] == ':' {
                assert(s@.skip(k + 1)[j - k - 1] == ':');
                return Err(ParseMajMinError(string_from_chars(&cs)));
            }
            j = j + 1;
        }
        assert(!s@.skip(k + 1).contains(':')) by {
            if s@.skip(k + 1).contains(':') {
                let q = choose|q: int| 0 <= q < s@.skip(k + 1).len() && #[trigger] s@.skip(k + 1)[q] == ':';
                assert(cs@[k + 1 + q] == ':');
            }
        }
        assert(cs@.subrange(0, k as int) == s@.take(k as int));
        assert(cs@.subrange(k + 1, cs@.len() as int) == s@.skip(k + 1));
        let major = parse_unsigned(&cs, 0, k, 0xffff_ffff);
        let minor = parse_unsigned(&cs, k + 1, cs.len(), 0xffff_ffff);
        match (major, minor) {
            (Some(a), Some(b)) => Ok(MajMin { major: a as u32, minor: b as u32 }),
            _ => Err(ParseMajMinError(string_from_chars(&cs))),
        }
    }

    /// The `"<major>:<minor>"` text of this pair (its display and serialized
    /// form).
    pub fn to_text(&self) -> (r: String)
        ensures
            r@ == maj_min_text(self.major, self.minor),
    {
        let mut out = decimal_string(self.major as u64);
        string_push(&mut out, ':');
        let minor = decimal_string(self.minor as u64);
        push_str(&mut out, minor.as_str());
        out
    }
}

impl std::str::FromStr for MajMin {
    type Err = ParseMajMinError;

    fn from_str(s: &str) -> (r: Result<Self, Self::Err>)
        ensures
            match spec_parse_maj_min(s@) {
                Some((a, b)) => r matches Ok(m) && m.major == a && m.minor == b,
                None => r matches Err(e) && e.0@ == s@,
            },
    {
        MajMin::parse(s)
    }
}

/// Type of a block device, as reported in the `"type"` field; unknown values
/// map to `Other`.
#[derive(Debug, Clone, Copy, PartialEq, Eq, Structural, Hash)]
pub enum DeviceType {
    /// A physical disk device.
    Disk,
    /// A partition on a disk.
    Part,
    /// A loop device.
    Loop,
    /// A RAID1 (mirroring) device.
    Raid1,
    /// A RAID5 device.
    Raid5,
    /// A RAID6 device.
    Raid6,
    /// A RAID0 (striping) device.
    Raid0,
    /// A RAID10 device.
    Raid10,
    /// An LVM logical volume.
    Lvm,
    /// A device mapper crypt device.
    Crypt,
    /// A ROM device (e.g., CD/DVD drive).
    Rom,
    /// An unknown or unsupported device type.
    Other,
}

/// The lowercase name of each device type.
pub open spec fn device_type_name(t: DeviceType) -> Seq<char> {
    match t {
        DeviceType::Disk => "disk"@,
        DeviceType::Part => "part"@,
        DeviceType::Loop => "loop"@,
        DeviceType::Raid0 => "raid0"@,
        DeviceType::Raid1 => "raid1"@,
        DeviceType::Raid5 => "raid5"@,
        DeviceType::Raid6 => "raid6"@,
        DeviceType::Raid10 => "raid10"@,
        DeviceType::Lvm => "lvm"@,
        DeviceType::Crypt => "crypt"@,
        DeviceType::Rom => "rom"@,
        DeviceType::Other => "other"@,
    }
}

impl DeviceType {
    /// The canonical lowercase name, as `lsblk` writes it in `"type"`.
    pub fn as_str(&self) -> (r: &'static str)
        ensures
            r@ == device_type_name(*self),
    {
        match self {
            DeviceType::Disk => "disk",
            DeviceType::Part => "part",
            DeviceType::Loop => "loop",
            DeviceType::Raid0 => "raid0",
            DeviceType::Raid1 => "raid1",
            DeviceType::Raid5 => "raid5",
            DeviceType::Raid6 => "raid6",
            DeviceType::Raid10 => "raid10",
            DeviceType::Lvm => "lvm",
            DeviceType::Crypt => "crypt",
            DeviceType::Rom => "rom",
            DeviceType::Other => "other",
        }
    }
}

/// A single block device as reported by `lsblk`; partitions and layered
/// mappings sit in `children`.
#[derive(Debug, PartialEq, Eq)]
pub struct BlockDevice {
    /// Device name (e.g. `"sda"`).
    pub name: String,
    /// Major and minor numbers (`"maj:min"`).
    pub maj_min: MajMin,
    /// Filesystem UUID.
    pub uuid: Option<String>,
    /// World Wide Name.
    pub wwn: Option<String>,
    /// Serial number.
    pub serial: Option<String>,
    /// Filesystem type.
    pub fstype: Option<String>,
    /// Whether the device is removable.
    pub rm: bool,
    /// Size in bytes.
    pub size: u64,
    /// Whether the device is read-only.
    pub ro: bool,
    /// Device type (`"type"`).
    pub device_type: DeviceType,
    /// Mountpoints; `None` entries stand for `null`.
    pub mountpoints: Vec<Option<String>>,
    /// Partition number (`"partn"`), when reported.
    pub partn: Option<u32>,
    /// Start sector (`"start"`), when reported.
    pub start: Option<u64>,
    /// Logical sector size (`"log-sec"`), when reported.
    pub log_sec: Option<u64>,
    /// Nested children (partitions, RAID/LVM/crypt mappings).
    pub children: Option<Vec<BlockDevice>>,
}

/// The direct children of `d` (empty when it has none).
pub open spec fn child_seq(d: BlockDevice) -> Seq<BlockDevice> {
    match d.children {
        Some(c) => c@,
        None => Seq::empty(),
    }
}

/// `d` followed by all its descendants, in pre-order.
pub open spec fn preorder(d: BlockDevice) -> Seq<BlockDevice>
    decreases d, 1int,
{
    match d.children {
        Some(c) => seq![d] + preorder_forest(c@),
        None => seq![d],
    }
}

/// The pre-order walks of the trees of `s`, one after the other.
pub open spec fn preorder_forest(s: Seq<BlockDevice>) -> Seq<BlockDevice>
    decreases s, 0int,
{
    if s.len() == 0 {
        Seq::empty()
    } else {
        preorder(s[0]) + preorder_forest(s.drop_first())
    }
}

/// Whether the mountpoint entry is the root filesystem `/`.
pub open spec fn is_root_mount(m: Option<String>) -> bool {
    m matches Some(p) && p@ == seq!['/']
}

/// Whether `d` itself is mounted at `/`.
pub open spec fn mounted_at_root(d: BlockDevice) -> bool {
    exists|i: int| 0 <= i < d.mountpoints@.len() && is_root_mount(#[trigger] d.mountpoints@[i])
}

/// Whether `d` or one of its descendants is mounted at `/`.
pub open spec fn system_tree(d: BlockDevice) -> bool
    decreases d, 1int,
{
    mounted_at_root(d) || match d.children {
        Some(c) => system_forest(c@),
        None => false,
    }
}

/// Whether some tree of `s` holds the root filesystem.
pub open spec fn system_forest(s: Seq<BlockDevice>) -> bool
    decreases s, 0int,
{
    s.len() > 0 && (system_tree(s[0]) || system_forest(s.drop_first()))
}

/// The non-null mountpoints of `s`, in order.
pub open spec fn present_mounts(s: Seq<Option<String>>) -> Seq<Seq<char>>
    decreases s.len(),
{
    if s.len() == 0 {
        Seq::empty()
    } else {
        let rest = present_mounts(s.drop_last());
        match s.last() {
            Some(m) => rest.push(m@),
            None => rest,
        }
    }
}

/// The devices referred to by `s`.
pub open spec fn derefs(s: Seq<&BlockDevice>) -> Seq<BlockDevice> {
    s.map_values(|r: &BlockDevice| *r)
}

/// The strings referred to by `s`, as character sequences.
pub open spec fn str_views(s: Seq<&str>) -> Seq<Seq<char>> {
    s.map_values(|r: &str| r@)
}

/// Whether `k` is the first index of `s` whose device is named `name`.
pub open spec fn first_named_at(s: Seq<BlockDevice>, name: Seq<char>, k: int) -> bool {
    &&& 0 <= k < s.len()
    &&& s[k].name@ == name
    &&& forall|j: int| 0 <= j < k ==> s[j].name@ != name
}

/// Whether no device of `s` is named `name`.
pub open spec fn none_named(s: Seq<BlockDevice>, name: Seq<char>) -> bool {
    forall|j: int| 0 <= j < s.len() ==> s[j].name@ != name
}

/// The result of searching `s` for the first device named `name`.
pub open spec fn found_first(r: Option<&BlockDevice>, s: Seq<BlockDevice>, name: Seq<char>) -> bool {
    match r {
        Some(d) => exists|k: int| first_named_at(s, name, k) && s[k] == *d,
        None => none_named(s, name),
    }
}

/// The devices of `s` whose tree holds the root filesystem exactly when
/// `want` is true.
pub open spec fn keep_by_system(s: Seq<BlockDevice>, want: bool) -> Seq<BlockDevice>
    decreases s.len(),
{
    if s.len() == 0 {
        Seq::empty()
    } else {
        let rest = keep_by_system(s.drop_last(), want);
        if system_tree(s.last()) == want {
            rest.push(s.last())
        } else {
            rest
        }
    }
}

/// The walk order is compositional: walking `a + b` walks `a`, then `b`.
pub proof fn lemma_preorder_forest_append(a: Seq<BlockDevice>, b: Seq<BlockDevice>)
    ensures
        preorder_forest(a + b) == preorder_forest(a) + preorder_forest(b),
    decreases a.len(),
{
    if a.len() == 0 {
        assert(a + b == b);
        assert(preorder_forest(a) == Seq::<BlockDevice>::empty());
    } else {
        assert((a + b)[0] == a[0]);
        assert((a + b).drop_first() == a.drop_first() + b);
        lemma_preorder_forest_append(a.drop_first(), b);
    }
}

proof fn lemma_preorder_forest_single(d: BlockDevice)
    ensures
        preorder_forest(seq![d]) == preorder(d),
{
    assert(seq![d].drop_first() == Seq::<BlockDevice>::empty());
    assert(preorder_forest(Seq::<BlockDevice>::empty()) == Seq::<BlockDevice>::empty());
}

proof fn lemma_preorder_forest_take_next(s: Seq<BlockDevice>, i: int)
    requires
        0 <= i < s.len(),
    ensures
        preorder_forest(s.take(i + 1)) == preorder_forest(s.take(i)) + preorder(s[i]),
{
    assert(s.take(i + 1) == s.take(i) + seq![s[i]]);
    lemma_preorder_forest_append(s.take(i), seq![s[i]]);
    lemma_preorder_forest_single(s[i]);
}

proof fn lemma_preorder_first(d: BlockDevice)
    ensures
        preorder(d).len() >= 1,
        preorder(d)[0] == d,
        preorder(d).drop_first() == preorder_forest(child_seq(d)),
{
    match d.children {
        Some(c) => {
            assert((seq![d] + preorder_forest(c@)).drop_first() == preorder_forest(c@));
        },
        None => {
            assert(seq![d].drop_first() == Seq::<BlockDevice>::empty());
            assert(preorder_forest(Seq::<BlockDevice>::empty()) == Seq::<BlockDevice>::empty());
        },
    }
}

/// `system_forest` holds exactly when some tree of the forest is a system tree.
pub proof fn lemma_system_forest_any(s: Seq<BlockDevice>)
    ensures
        system_forest(s) <==> exists|i: int| 0 <= i < s.len() && system_tree(#[trigger] s[i]),
    decreases s.len(),
{
    if s.len() > 0 {
        lemma_system_forest_any(s.drop_first());
        if exists|i: int| 0 <= i < s.len() && system_tree(#[trigger] s[i]) {
            let i = choose|i: int| 0 <= i < s.len() && system_tree(#[trigger] s[i]);
            if i > 0 {
                assert(s.drop_first()[i - 1] == s[i]);
            }
        }
        if system_forest(s.drop_first()) {
            let i = choose|i: int| 0 <= i < s.drop_first().len() && system_tree(#[trigger] s.drop_first()[i]);
            assert(s[i + 1] == s.drop_first()[i]);
        }
    }
}

/// A device tree holds the root filesystem exactly when some device of its
/// pre-order walk is mounted at `/`.
pub proof fn lemma_system_tree_iff_walk(d: BlockDevice)
    ensures
        system_tree(d) <==> exists|i: int| 0 <= i < preorder(d).len() && mounted_at_root(#[trigger] preorder(d)[i]),
    decreases d, 1int,
{
    lemma_preorder_first(d);
    match d.children {
        Some(c) => {
            lemma_system_forest_iff_walk(c@);
            let w = preorder(d);
            assert(w == seq![d] + preorder_forest(c@));
            if system_tree(d) {
                if mounted_at_root(d) {
                    assert(mounted_at_root(w[0]));
                } else {
                    let i = choose|i: int| 0 <= i < preorder_forest(c@).len() && mounted_at_root(#[trigger] preorder_forest(c@)[i]);
                    assert(w[i + 1] == preorder_forest(c@)[i]);
                }
            }
            if exists|i: int| 0 <= i < w.len() && mounted_at_root(#[trigger] w[i]) {
                let i = choose|i: int| 0 <= i < w.len() && mounted_at_root(#[trigger] w[i]);
                if i > 0 {
                    assert(w[i] == preorder_forest(c@)[i - 1]);
                }
            }
        },
        None => {
            assert(preorder(d) == seq![d]);
        },
    }
}

/// A forest holds the root filesystem exactly when some device of its
/// pre-order walk is mounted at `/`.
pub proof fn lemma_system_forest_iff_walk(s: Seq<BlockDevice>)
    ensures
        system_forest(s) <==> exists|i: int| 0 <= i < preorder_forest(s).len() && mounted_at_root(#[trigger] preorder_forest(s)[i]),
    decreases s, 0int,
{
    if s.len() > 0 {
        lemma_system_tree_iff_walk(s[0]);
        lemma_system_forest_iff_walk(s.drop_first());
        let a = preorder(s[0]);
        let b = preorder_forest(s.drop_first());
        let w = preorder_forest(s);
        assert(w == a + b);
        if system_forest(s) {
            if system_tree(s[0]) {
                let i = choose|i: int| 0 <= i < a.len() && mounted_at_root(#[trigger] a[i]);
                assert(w[i] == a[i]);
            } else {
                let i = choose|i: int| 0 <= i < b.len() && mounted_at_root(#[trigger] b[i]);
                assert(w[a.len() + i] == b[i]);
            }
        }
        if exists|i: int| 0 <= i < w.len() && mounted_at_root(#[trigger] w[i]) {
            let i = choose|i: int| 0 <= i < w.len() && mounted_at_root(#[trigger] w[i]);
            if i < a.len() {
                assert(w[i] == a[i]);
            } else {
                assert(w[i] == b[i - a.len()]);
            }
        }
    } else {
        assert(preorder_forest(s).len() == 0);
    }
}

/// Returns the first device of `v` named `name`.
fn first_named<'a>(v: &Vec<&'a BlockDevice>, name: &str) -> (r: Option<&'a BlockDevice>)
    ensures
        found_first(r, derefs(v@), name@),
{
    let ghost s = derefs(v@);
    let mut i: usize = 0;
    while i < v.len()
        invariant
            i <= v@.len(),
            s == derefs(v@),
            forall|j: int| 0 <= j < i ==> s[j].name@ != name@,
        decreases v.len() - i,
    {
        let d: &'a BlockDevice = v[i];
        if same_text(d.name.as_str(), name) {
            assert(first_named_at(s, name@, i as int));
            return Some(d);
        }
        i = i + 1;
    }
    None
}

/// Iterator-like walk over a device and its descendants in pre-order, holding
/// the devices still to visit on a stack.
#[derive(Debug, Clone)]
pub struct Descendants<'a> {
    stack: Vec<&'a BlockDevice>,
}

/// The stack read from its top down, as device values.
pub open spec fn stack_order(st: Seq<&BlockDevice>) -> Seq<BlockDevice> {
    Seq::new(st.len(), |i: int| *st[st.len() - 1 - i])
}

impl<'a> View for Descendants<'a> {
    type V = Seq<BlockDevice>;

    /// The devices the walk has still to yield, in order.
    closed spec fn view(&self) -> Seq<BlockDevice> {
        preorder_forest(stack_order(self.stack@))
    }
}

impl<'a> Descendants<'a> {
    /// Yields the next device of the walk, or `None` once it is exhausted.
    pub fn next(&mut self) -> (r: Option<&'a BlockDevice>)
        ensures
            old(self)@.len() == 0 ==> r is None && final(self)@ == old(self)@,
            old(self)@.len() > 0 ==> (r matches Some(d) && *d == old(self)@[0] && final(self)@ == old(self)@.drop_first()),
    {
        let ghost old_stack = self.stack@;
        match self.stack.pop() {
            None => {
                assert(stack_order(old_stack) == Seq::<BlockDevice>::empty());
                None
            },
            Some(next) => {
                let ghost rest = self.stack@;
                proof {
                    assert(stack_order(old_stack) == seq![*next] + stack_order(rest));
                    lemma_preorder_forest_append(seq![*next], stack_order(rest));
                    lemma_preorder_forest_single(*next);
                    lemma_preorder_first(*next);
                }
                match &next.children {
                    Some(children) => {
                        let n = children.len();
                        let mut k = n;
                        while k > 0
                            invariant
                                k <= n == children@.len(),
                                self.stack@.len() == rest.len() + (n - k),
                                forall|j: int| 0 <= j < rest.len() ==> self.stack@[j] == rest[j],
                                forall|j: int| rest.len() <= j < self.stack@.len() ==> *#[trigger] self.stack@[j] == children@[n - 1 - (j - rest.len())],
                            decreases k,
                        {
                            k = k - 1;
                            self.stack.push(&children[k]);
                        }
                        proof {
                            assert(stack_order(self.stack@) == children@ + stack_order(rest));
                            lemma_preorder_forest_append(children@, stack_order(rest));
                        }
                    },
                    None => {
                        assert(self.stack@ == rest);
                        assert(preorder_forest(Seq::<BlockDevice>::empty()) == Seq::<BlockDevice>::empty());
                    },
                }
                Some(next)
            },
        }
    }

    /// Drains the walk, returning every remaining device in order.
    pub fn collect_all(self) -> (r: Vec<&'a BlockDevice>)
        ensures
            derefs(r@) == self@,
    {
        let mut it = self;
        let ghost all = it@;
        assert(all == self@);
        let mut out: Vec<&'a BlockDevice> = Vec::new();
        loop
            invariant
                derefs(out@) + it@ == all,
                all == self@,
            decreases it@.len(),
        {
            let ghost before = it@;
            let ghost prev = out@;
            match it.next() {
                Some(d) => {
                    out.push(d);
                    assert(out@ == prev.push(d));
                    assert(derefs(out@) == derefs(prev).push(*d));
                    assert(before == seq![*d] + before.drop_first());
                },
                None => {
                    assert(before.len() == 0);
                    assert(it@.len() == 0);
                    assert(derefs(out@) + it@ =~= derefs(out@));
                    assert(derefs(out@) == all);
                    return out;
                },
            }
        }
    }
}


/// Returns whether the mountpoint text is exactly `/`.
fn is_root_path(p: &String) -> (r: bool)
    ensures
        r == (p@ == seq!['/']),
{
    let cs = chars_of(p.as_str());
    let r = cs.len() == 1 && cs[0] == '/';
    assert(r ==> cs@ =~= seq!['/']);
    r
}

impl BlockDevice {
    /// Whether this device has at least one child.
    pub fn has_children(&self) -> (r: bool)
        ensures
            r == (child_seq(*self).len() > 0),
    {
        match &self.children {
            Some(c) => c.len() > 0,
            None => false,
        }
    }

    /// The direct children of this device (empty when it has none).
    pub fn children_iter(&self) -> (r: &[BlockDevice])
        ensures
            r@ == child_seq(*self),
    {
        match &self.children {
            Some(c) => c.as_slice(),
            None => {
                let empty: &[BlockDevice] = &[];
                assert(empty@ == Seq::<BlockDevice>::empty());
                empty
            },
        }
    }

    /// A walk over this device and all its descendants in pre-order.
    pub fn descendants(&self) -> (r: Descendants<'_>)
        ensures
            r@ == preorder(*self),
    {
        let mut stack: Vec<&BlockDevice> = Vec::new();
        stack.push(self);
        let r = Descendants { stack };
        proof {
            assert(stack_order(r.stack@) == seq![*self]);
            lemma_preorder_forest_single(*self);
        }
        r
    }

    /// The first direct child named `name`.
    pub fn find_child(&self, name: &str) -> (r: Option<&BlockDevice>)
        ensures
            found_first(r, child_seq(*self), name@),
    {
        let children = self.children_iter();
        let mut i: usize = 0;
        while i < children.len()
            invariant
                children@ == child_seq(*self),
                i <= children@.len(),
                forall|j: int| 0 <= j < i ==> children@[j].name@ != name@,
            decreases children.len() - i,
        {
            if same_text(children[i].name.as_str(), name) {
                assert(first_named_at(child_seq(*self), name@, i as int));
                return Some(&children[i]);
            }
            i = i + 1;
        }
        None
    }

    /// The first device named `name` in the pre-order walk of this device
    /// (the device itself included).
    pub fn find_descendant(&self, name: &str) -> (r: Option<&BlockDevice>)
        ensures
            found_first(r, preorder(*self), name@),
    {
        let all = self.descendants().collect_all();
        first_named(&all, name)
    }

    /// The non-null mountpoints of this device, in order.
    pub fn active_mountpoints(&self) -> (r: Vec<&str>)
        ensures
            str_views(r@) == present_mounts(self.mountpoints@),
    {
        self.active_mountpoints_iter()
    }

    /// The non-null mountpoints of this device, in order.
    pub fn active_mountpoints_iter(&self) -> (r: Vec<&str>)
        ensures
            str_views(r@) == present_mounts(self.mountpoints@),
    {
        let mut out: Vec<&str> = Vec::new();
        let mut i: usize = 0;
        while i < self.mountpoints.len()
            invariant
                i <= self.mountpoints@.len(),
                str_views(out@) == present_mounts(self.mountpoints@.take(i as int)),
            decreases self.mountpoints.len() - i,
        {
            let ghost prev = out@;
            assert(self.mountpoints@.take(i + 1).drop_last() == self.mountpoints@.take(i as int));
            match &self.mountpoints[i] {
                Some(m) => {
                    let ms: &str = m.as_str();
                    out.push(ms);
                    assert(out@ == prev.push(ms));
                    assert(str_views(out@) == str_views(prev).push(m@));
                },
                None => {},
            }
            i = i + 1;
        }
        assert(self.mountpoints@.take(self.mountpoints@.len() as int) == self.mountpoints@);
        out
    }

    /// Whether this device has at least one mountpoint.
    pub fn is_mounted(&self) -> (r: bool)
        ensures
            r == exists|i: int| 0 <= i < self.mountpoints@.len() && (#[trigger] self.mountpoints@[i]) is Some,
    {
        let mut i: usize = 0;
        while i < self.mountpoints.len()
            invariant
                i <= self.mountpoints@.len(),
                forall|j: int| 0 <= j < i ==> self.mountpoints@[j] is None,
            decreases self.mountpoints.len() - i,
        {
            if self.mountpoints[i].is_some() {
                return true;
            }
            i = i + 1;
        }
        false
    }

    /// Whether this device is itself mounted at `/`.
    fn has_root_mount(&self) -> (r: bool)
        ensures
            r == mounted_at_root(*self),
    {
        let mut i: usize = 0;
        while i < self.mountpoints.len()
            invariant
                i <= self.mountpoints@.len(),
                forall|j: int| 0 <= j < i ==> !is_root_mount(#[trigger] self.mountpoints@[j]),
            decreases self.mountpoints.len() - i,
        {
            match &self.mountpoints[i] {
                Some(m) => {
                    if is_root_path(m) {
                        assert(is_root_mount(self.mountpoints@[i as int]));
                        return true;
                    }
                },
                None => {},
            }
            i = i + 1;
        }
        false
    }

    /// Whether this device or one of its descendants is mounted at `/`.
    pub fn is_system(&self) -> (r: bool)
        ensures
            r == system_tree(*self),
        decreases self,
    {
        if self.has_root_mount() {
            return true;
        }
        match &self.children {
            Some(children) => {
                proof {
                    lemma_system_forest_any(children@);
                }
                let mut i: usize = 0;
                while i < children.len()
                    invariant
                        i <= children@.len(),
                        self.children == Some(*children),
                        !mounted_at_root(*self),
                        system_forest(children@) <==> exists|j: int| 0 <= j < children@.len() && system_tree(#[trigger] children@[j]),
                        forall|j: int| 0 <= j < i ==> !system_tree(#[trigger] children@[j]),
                    decreases children.len() - i,
                {
                    proof {
                        let c = self.children->0;
                        assert(decreases_to!(*self => self.children));
                        assert(decreases_to!(self.children => c));
                        assert(decreases_to!(c => c@));
                        assert(decreases_to!(c@ => c@[i as int]));
                    }
                    if children[i].is_system() {
                        return true;
                    }
                    i = i + 1;
                }
                false
            },
            None => false,
        }
    }

    /// Whether this device is a disk.
    pub fn is_disk(&self) -> (r: bool)
        ensures
            r == (self.device_type == DeviceType::Disk),
    {
        self.device_type == DeviceType::Disk
    }

    /// Whether this device is a partition.
    pub fn is_partition(&self) -> (r: bool)
        ensures
            r == (self.device_type == DeviceType::Part),
    {
        self.device_type == DeviceType::Part
    }
}


/// The whole `lsblk --json` document: the list of top-level devices.
#[derive(Debug, PartialEq, Eq)]
pub struct BlockDevices {
    /// The top-level block devices.
    pub blockdevices: Vec<BlockDevice>,
}

impl Default for BlockDevices {
    fn default() -> (r: Self)
        ensures
            r.blockdevices@.len() == 0,
    {
        BlockDevices { blockdevices: Vec::new() }
    }
}

impl BlockDevices {
    /// The number of top-level devices.
    pub fn len(&self) -> (r: usize)
        ensures
            r == self.blockdevices@.len(),
    {
        self.blockdevices.len()
    }

    /// Whether there are no devices.
    pub fn is_empty(&self) -> (r: bool)
        ensures
            r == (self.blockdevices@.len() == 0),
    {
        self.blockdevices.len() == 0
    }

    /// The top-level devices.
    pub fn iter(&self) -> (r: &[BlockDevice])
        ensures
            r@ == self.blockdevices@,
    {
        self.blockdevices.as_slice()
    }

    /// Every device of the tree, each top-level device followed by its
    /// descendants in pre-order.
    pub fn iter_all(&self) -> (r: Vec<&BlockDevice>)
        ensures
            derefs(r@) == preorder_forest(self.blockdevices@),
    {
        let mut out: Vec<&BlockDevice> = Vec::new();
        let mut i: usize = 0;
        while i < self.blockdevices.len()
            invariant
                i <= self.blockdevices@.len(),
                derefs(out@) == preorder_forest(self.blockdevices@.take(i as int)),
            decreases self.blockdevices.len() - i,
        {
            let mut part = self.blockdevices[i].descendants().collect_all();
            let ghost prev = out@;
            let ghost added = part@;
            out.append(&mut part);
            proof {
                assert(out@ == prev + added);
                assert(derefs(out@) == derefs(prev) + derefs(added));
                lemma_preorder_forest_take_next(self.blockdevices@, i as int);
            }
            i = i + 1;
        }
        assert(self.blockdevices@.take(self.blockdevices@.len() as int) == self.blockdevices@);
        out
    }

    /// The top-level devices whose tree holds the root filesystem.
    pub fn system(&self) -> (r: Vec<&BlockDevice>)
        ensures
            derefs(r@) == keep_by_system(self.blockdevices@, true),
    {
        self.filter_by_system(true)
    }

    /// The top-level devices whose tree holds the root filesystem.
    pub fn system_iter(&self) -> (r: Vec<&BlockDevice>)
        ensures
            derefs(r@) == keep_by_system(self.blockdevices@, true),
    {
        self.filter_by_system(true)
    }

    /// The top-level devices whose tree does not hold the root filesystem.
    pub fn non_system(&self) -> (r: Vec<&BlockDevice>)
        ensures
            derefs(r@) == keep_by_system(self.blockdevices@, false),
    {
        self.filter_by_system(false)
    }

    /// The top-level devices whose tree does not hold the root filesystem.
    pub fn non_system_iter(&self) -> (r: Vec<&BlockDevice>)
        ensures
            derefs(r@) == keep_by_system(self.blockdevices@, false),
    {
        self.filter_by_system(false)
    }

    fn filter_by_system(&self, want: bool) -> (r: Vec<&BlockDevice>)
        ensures
            derefs(r@) == keep_by_system(self.blockdevices@, want),
    {
        let mut out: Vec<&BlockDevice> = Vec::new();
        let mut i: usize = 0;
        while i < self.blockdevices.len()
            invariant
                i <= self.blockdevices@.len(),
                derefs(out@) == keep_by_system(self.blockdevices@.take(i as int), want),
            decreases self.blockdevices.len() - i,
        {
            let d = &self.blockdevices[i];
            let ghost prev = out@;
            assert(self.blockdevices@.take(i + 1).drop_last() == self.blockdevices@.take(i as int));
            if d.is_system() == want {
                out.push(d);
                assert(out@ == prev.push(d));
                assert(derefs(out@) == derefs(prev).push(*d));
            }
            i = i + 1;
        }
        assert(self.blockdevices@.take(self.blockdevices@.len() as int) == self.blockdevices@);
        out
    }

    /// The first top-level device named `name`.
    pub fn find_by_name(&self, name: &str) -> (r: Option<&BlockDevice>)
        ensures
            found_first(r, self.blockdevices@, name@),
    {
        let mut i: usize = 0;
        while i < self.blockdevices.len()
            invariant
                i <= self.blockdevices@.len(),
                forall|j: int| 0 <= j < i ==> self.blockdevices@[j].name@ != name@,
            decreases self.blockdevices.len() - i,
        {
            if same_text(self.blockdevices[i].name.as_str(), name) {
                assert(first_named_at(self.blockdevices@, name@, i as int));
                return Some(&self.blockdevices[i]);
            }
            i = i + 1;
        }
        None
    }

    /// The first device named `name` anywhere in the tree, in the order of
    /// `iter_all`.
    pub fn find_anywhere(&self, name: &str) -> (r: Option<&BlockDevice>)
        ensures
            found_first(r, preorder_forest(self.blockdevices@), name@),
    {
        let all = self.iter_all();
        first_named(&all, name)
    }
}


/// A size text read by `parse_size_string`.
#[derive(Debug)]
pub enum SizeText {
    /// The exact byte count: the number had no fractional part.
    Bytes(u64),
    /// A number with a fractional part (`number`, digits with one `.`), to
    /// be multiplied by `multiplier` in double precision; the byte count is
    /// the product truncated toward zero, and the text is rejected when the
    /// product is not below 2^64.
    Scaled { number: String, multiplier: u64 },
}

/// Characters that belong to the numeric part of a size text.
pub open spec fn is_num_char(c: char) -> bool {
    is_digit(c) || c == '.'
}

/// Whether `k` is where the numeric prefix of `t` ends.
pub open spec fn is_num_end(t: Seq<char>, k: int) -> bool {
    &&& 0 <= k <= t.len()
    &&& forall|j: int| 0 <= j < k ==> is_num_char(#[trigger] t[j])
    &&& k < t.len() ==> !is_num_char(t[k])
}

/// The length of the longest prefix of `t` made of digits and dots.
pub open spec fn num_end(t: Seq<char>) -> int {
    choose|k: int| is_num_end(t, k)
}

/// The byte multiplier a suffix stands for: the empty suffix, a single
/// letter `b`/`k`/`m`/`g`/`t`/`p`, or `kb`/`kib`, `mb`/`mib`, ... compared
/// without ASCII case; every multiplier is a power of 1024.
pub open spec fn suffix_multiplier(sfx: Seq<char>) -> Option<u64> {
    let l = ascii_lower_seq(sfx);
    if sfx.len() == 0 {
        Some(1)
    } else if l == seq!['b'] {
        Some(1)
    } else if l == seq!['k'] || l == seq!['k', 'b'] || l == seq!['k', 'i', 'b'] {
        Some(0x400)
    } else if l == seq!['m'] || l == seq!['m', 'b'] || l == seq!['m', 'i', 'b'] {
        Some(0x10_0000)
    } else if l == seq!['g'] || l == seq!['g', 'b'] || l == seq!['g', 'i', 'b'] {
        Some(0x4000_0000)
    } else if l == seq!['t'] || l == seq!['t', 'b'] || l == seq!['t', 'i', 'b'] {
        Some(0x100_0000_0000)
    } else if l == seq!['p'] || l == seq!['p', 'b'] || l == seq!['p', 'i', 'b'] {
        Some(0x4_0000_0000_0000)
    } else {
        None
    }
}

/// The numeric part and the multiplier of a size text, once trimmed; `None`
/// when the text is blank or its suffix is unknown.
pub open spec fn size_parts(s: Seq<char>) -> Option<(Seq<char>, u64)> {
    let t = trim_ws(s);
    if t.len() == 0 {
        None
    } else {
        let k = num_end(t);
        match suffix_multiplier(trim_start_ws(t.skip(k))) {
            Some(m) => Some((t.take(k), m)),
            None => None,
        }
    }
}

/// Whether a string of digits and dots reads as a decimal floating-point
/// number: exactly one dot and at least one digit.
pub open spec fn is_fraction_literal(num: Seq<char>) -> bool {
    count_char(num, '.') == 1 && num.len() >= 2
}

/// What `parse_size_string` yields for `s`.
pub open spec fn size_text_matches(r: Option<SizeText>, s: Seq<char>) -> bool {
    match size_parts(s) {
        None => r is None,
        Some((num, m)) => if count_char(num, '.') == 0 {
            match spec_parse_unsigned(num, u64::MAX as nat) {
                Some(n) => if n * m <= u64::MAX {
                    r matches Some(SizeText::Bytes(b)) && b == n * m
                } else {
                    r is None
                },
                None => r is None,
            }
        } else if is_fraction_literal(num) {
            r matches Some(SizeText::Scaled { number, multiplier }) && number@ == num && multiplier == m
        } else {
            r is None
        },
    }
}

/// The multiplier of an already lowered suffix, as `suffix_multiplier`.
fn suffix_multiplier_of(lower: &Vec<char>) -> (r: Option<u64>)
    ensures
        forall|sfx: Seq<char>| ascii_lower_seq(sfx) == lower@ ==> r == #[trigger] suffix_multiplier(sfx),
{
    let b = vec!['b'];
    let k1 = vec!['k'];
    let k2 = vec!['k', 'b'];
    let k3 = vec!['k', 'i', 'b'];
    let m1 = vec!['m'];
    let m2 = vec!['m', 'b'];
    let m3 = vec!['m', 'i', 'b'];
    let g1 = vec!['g'];
    let g2 = vec!['g', 'b'];
    let g3 = vec!['g', 'i', 'b'];
    let t1 = vec!['t'];
    let t2 = vec!['t', 'b'];
    let t3 = vec!['t', 'i', 'b'];
    let p1 = vec!['p'];
    let p2 = vec!['p', 'b'];
    let p3 = vec!['p', 'i', 'b'];
    assert(b@ == seq!['b']);
    assert(k1@ == seq!['k'] && k2@ == seq!['k', 'b'] && k3@ == seq!['k', 'i', 'b']);
    assert(m1@ == seq!['m'] && m2@ == seq!['m', 'b'] && m3@ == seq!['m', 'i', 'b']);
    assert(g1@ == seq!['g'] && g2@ == seq!['g', 'b'] && g3@ == seq!['g', 'i', 'b']);
    assert(t1@ == seq!['t'] && t2@ == seq!['t', 'b'] && t3@ == seq!['t', 'i', 'b']);
    assert(p1@ == seq!['p'] && p2@ == seq!['p', 'b'] && p3@ == seq!['p', 'i', 'b']);
    if lower.len() == 0 {
        Some(1)
    } else if seq_equal(lower, &b) {
        Some(1)
    } else if seq_equal(lower, &k1) || seq_equal(lower, &k2) || seq_equal(lower, &k3) {
        Some(0x400)
    } else if seq_equal(lower, &m1) || seq_equal(lower, &m2) || seq_equal(lower, &m3) {
        Some(0x10_0000)
    } else if seq_equal(lower, &g1) || seq_equal(lower, &g2) || seq_equal(lower, &g3) {
        Some(0x4000_0000)
    } else if seq_equal(lower, &t1) || seq_equal(lower, &t2) || seq_equal(lower, &t3) {
        Some(0x100_0000_0000)
    } else if seq_equal(lower, &p1) || seq_equal(lower, &p2) || seq_equal(lower, &p3) {
        Some(0x4_0000_0000_0000)
    } else {
        None
    }
}

/// The position of the first `.` in `bytes`, if any.
pub fn memchr_dot(bytes: &[u8]) -> (r: Option<usize>)
    ensures
        match r {
            Some(i) => i < bytes@.len() && bytes@[i as int] == 46 && forall|j: int| 0 <= j < i ==> bytes@[j] != 46,
            None => forall|j: int| 0 <= j < bytes@.len() ==> bytes@[j] != 46,
        },
{
    let mut i: usize = 0;
    while i < bytes.len()
        invariant
            i <= bytes@.len(),
            forall|j: int| 0 <= j < i ==> bytes@[j] != 46,
        decreases bytes.len() - i,
    {
        if bytes[i] == 46u8 {
            return Some(i);
        }
        i = i + 1;
    }
    None
}

proof fn lemma_count_zero(s: Seq<char>, c: char)
    ensures
        count_char(s, c) == 0 <==> forall|j: int| 0 <= j < s.len() ==> s[j] != c,
    decreases s.len(),
{
    if s.len() > 0 {
        lemma_count_zero(s.drop_last(), c);
        if count_char(s, c) == 0 {
            assert forall|j: int| 0 <= j < s.len() implies s[j] != c by {
                if j < s.len() - 1 {
                    assert(s[j] == s.drop_last()[j]);
                }
            }
        }
        if forall|j: int| 0 <= j < s.len() ==> s[j] != c {
            assert forall|j: int| 0 <= j < s.drop_last().len() implies s.drop_last()[j] != c by {
                assert(s.drop_last()[j] == s[j]);
            }
        }
    }
}

/// Reads a human-readable size such as `"500G"` or `"3.5T"`. Surrounding
/// whitespace is ignored, and so is whitespace between the number and its
/// suffix. Integers are scaled exactly (`None` on overflow); numbers with a
/// fractional part are handed back for scaling in floating point.
pub fn parse_size_string(s: &str) -> (r: Option<SizeText>)
    ensures
        size_text_matches(r, s@),
{
    let cs = chars_of(s);
    let (lo, hi) = trim_bounds(&cs);
    let ghost t = cs@.subrange(lo as int, hi as int);
    if lo == hi {
        return None;
    }
    let mut k = lo;
    while k < hi && (('0' <= cs[k] && cs[k] <= '9') || cs[k] == '.')
        invariant
            lo <= k <= hi <= cs@.len(),
            forall|j: int| lo <= j < k ==> is_num_char(#[trigger] cs@[j]),
        decreases hi - k,
    {
        k = k + 1;
    }
    proof {
        assert(is_num_end(t, k - lo)) by {
            assert forall|j: int| 0 <= j < k - lo implies is_num_char(#[trigger] t[j]) by {
                assert(t[j] == cs@[lo + j]);
            }
            if k < hi {
                assert(t[k - lo] == cs@[k as int]);
            }
        }
        let e = num_end(t);
        assert(is_num_end(t, e));
        if e < k - lo {
            assert(is_num_char(t[e]));
        }
        if e > k - lo {
            assert(is_num_char(t[k - lo]));
        }
        assert(e == k - lo);
        assert(t.skip(k - lo) == cs@.subrange(k as int, hi as int));
        assert(t.take(k - lo) == cs@.subrange(lo as int, k as int));
    }
    let sfx = trim_start_from(&cs, k, hi);
    let lower = ascii_lower_range(&cs, sfx, hi);
    let ghost l = ascii_lower_seq(trim_start_ws(t.skip(k - lo)));
    assert(lower@ == l);
    let mult: u64 = match suffix_multiplier_of(&lower) {
        Some(m) => m,
        None => {
            return None;
        },
    };
    let num = crate::text::slice_chars(&cs, lo, k);
    assert(num@ == t.take(k - lo));
    let mut bytes: Vec<u8> = Vec::new();
    let mut i: usize = 0;
    while i < num.len()
        invariant
            i <= num@.len(),
            bytes@.len() == i,
            forall|j: int| 0 <= j < num@.len() ==> is_num_char(#[trigger] num@[j]),
            forall|j: int| 0 <= j < i ==> (#[trigger] bytes@[j] == 46) == (num@[j] == '.'),
        decreases num.len() - i,
    {
        let c = num[i];
        assert(is_num_char(num@[i as int]));
        let b: u8 = if c == '.' { 46u8 } else { 48u8 };
        bytes.push(b);
        i = i + 1;
    }
    proof {
        lemma_count_zero(num@, '.');
    }
    match memchr_dot(bytes.as_slice()) {
        None => {
            assert forall|j: int| 0 <= j < num@.len() implies num@[j] != '.' by {
                assert(bytes@[j] != 46);
            }
            assert(count_char(num@, '.') == 0);
            match parse_unsigned(&num, 0, num.len(), u64::MAX) {
                Some(n) => {
                    assert(num@.subrange(0, num@.len() as int) == num@);
                    match n.checked_mul(mult) {
                        Some(b) => Some(SizeText::Bytes(b)),
                        None => None,
                    }
                },
                None => {
                    assert(num@.subrange(0, num@.len() as int) == num@);
                    None
                },
            }
        },
        Some(d) => {
            assert(num@[d as int] == '.');
            let dots = count_occurrences(&num, '.');
            if dots == 1 && num.len() >= 2 {
                Some(SizeText::Scaled { number: string_from_chars(&num), multiplier: mult })
            } else {
                None
            }
        },
    }
}



/// Reading back the `<major>:<minor>` text of a pair gives the same pair.
pub proof fn lemma_maj_min_text_round_trip(major: u32, minor: u32)
    ensures
        spec_parse_maj_min(maj_min_text(major, minor)) == Some((major, minor)),
{
    let a = decimal(major as nat);
    let b = decimal(minor as nat);
    let s = maj_min_text(major, minor);
    lemma_decimal_digits(major as nat);
    lemma_decimal_digits(minor as nat);
    lemma_parse_decimal(major as nat, u32::MAX as nat);
    lemma_parse_decimal(minor as nat, u32::MAX as nat);
    let k = a.len() as int;
    assert forall|j: int| 0 <= j < k implies s[j] != ':' by {
        assert(s[j] == a[j]);
        assert(crate::text::is_digit(a[j]));
    }
    assert(s[k] == ':');
    assert(is_first_index(s, ':', k));
    let kk = choose|kk: int| is_first_index(s, ':', kk);
    if kk < k {
        assert(s[kk] != ':');
    }
    if kk > k {
        assert(s[k] != ':');
    }
    assert(kk == k);
    assert(s.take(k) == a);
    assert(s.skip(k + 1) == b);
    if b.contains(':') {
        let q = choose|q: int| 0 <= q < b.len() && b[q] == ':';
        assert(crate::text::is_digit(b[q]));
    }
}

/// Every top-level device is either a system device or not: the two
/// selections together have as many devices as the list.
pub proof fn lemma_system_split_counts(s: Seq<BlockDevice>)
    ensures
        keep_by_system(s, true).len() + keep_by_system(s, false).len() == s.len(),
    decreases s.len(),
{
    if s.len() > 0 {
        lemma_system_split_counts(s.drop_last());
    }
}

/// A walk starts at the device it was taken from.
pub proof fn lemma_walk_starts_at_device(d: BlockDevice)
    ensures
        preorder(d).len() >= 1,
        preorder(d)[0] == d,
        preorder(d).drop_first() == preorder_forest(child_seq(d)),
{
    lemma_preorder_first(d);
}


/// Every tree of a forest is walked: each top-level device occurs in the
/// forest's pre-order walk.
proof fn lemma_roots_in_forest_walk(s: Seq<BlockDevice>, i: int)
    requires
        0 <= i < s.len(),
    ensures
        preorder_forest(s).contains(s[i]),
    decreases s.len(),
{
    lemma_preorder_first(s[0]);
    if i == 0 {
        assert(preorder_forest(s)[0] == s[0]);
    } else {
        lemma_roots_in_forest_walk(s.drop_first(), i - 1);
        let w = preorder_forest(s.drop_first());
        let k = choose|k: int| 0 <= k < w.len() && w[k] == s[i];
        assert(preorder_forest(s)[preorder(s[0]).len() + k] == s[i]);
    }
}

/// Searching a whole tree finds the device itself first when it carries
/// the name, and finds some device whenever one of its children carries the
/// name.
pub proof fn lemma_descendant_search_covers_children(d: BlockDevice, name: Seq<char>)
    ensures
        d.name@ == name ==> first_named_at(preorder(d), name, 0) && preorder(d)[0] == d,
        !none_named(child_seq(d), name) ==> !none_named(preorder(d), name),
{
    lemma_preorder_first(d);
    if !none_named(child_seq(d), name) {
        let j = choose|j: int| 0 <= j < child_seq(d).len() && child_seq(d)[j].name@ == name;
        lemma_roots_in_forest_walk(child_seq(d), j);
        let w = preorder_forest(child_seq(d));
        let k = choose|k: int| 0 <= k < w.len() && w[k] == child_seq(d)[j];
        assert(preorder(d)[k + 1] == w[k]);
    }
}

/// Searching at any depth finds some device whenever a top-level device
/// carries the name.
pub proof fn lemma_forest_search_covers_top_level(s: Seq<BlockDevice>, name: Seq<char>)
    ensures
        !none_named(s, name) ==> !none_named(preorder_forest(s), name),
{
    if !none_named(s, name) {
        let j = choose|j: int| 0 <= j < s.len() && s[j].name@ == name;
        lemma_roots_in_forest_walk(s, j);
        let w = preorder_forest(s);
        let k = choose|k: int| 0 <= k < w.len() && w[k] == s[j];
        assert(w[k].name@ == name);
    }
}


/// Whether every character of `s` is white space.
pub open spec fn all_ws(s: Seq<char>) -> bool {
    forall|i: int| 0 <= i < s.len() ==> spec_is_whitespace(#[trigger] s[i])
}

/// Whether every character of `s` is an ASCII letter.
pub open spec fn all_ascii_letters(s: Seq<char>) -> bool {
    forall|i: int| 0 <= i < s.len() ==> ('a' <= #[trigger] s[i] <= 'z' || 'A' <= s[i] <= 'Z')
}

/// A text `pre + digits + spaces + suffix + post`, with white space `pre`
/// and `post`, a known unit suffix (any ASCII case, possibly empty) and an
/// integer that fits in `u64`, splits into exactly that integer and the
/// suffix's multiplier; so `parse_size_string` reads it as the exact byte
/// count when the product fits in `u64`, and rejects it otherwise.
pub proof fn lemma_integer_size_text(
    pre: Seq<char>,
    digits: Seq<char>,
    spaces: Seq<char>,
    suffix: Seq<char>,
    post: Seq<char>,
    r: Option<SizeText>,
)
    requires
        all_ws(pre),
        all_ws(post),
        forall|i: int| 0 <= i < spaces.len() ==> #[trigger] spaces[i] == ' ',
        digits.len() > 0,
        all_digits(digits),
        digits_value(digits) <= u64::MAX,
        all_ascii_letters(suffix),
        suffix_multiplier(suffix) is Some,
        size_text_matches(r, pre + digits + spaces + suffix + post),
    ensures
        size_parts(pre + digits + spaces + suffix + post) == Some((digits, suffix_multiplier(suffix)->0)),
        digits_value(digits) * (suffix_multiplier(suffix)->0) <= u64::MAX ==> (r matches Some(SizeText::Bytes(b))
            && b == digits_value(digits) * (suffix_multiplier(suffix)->0)),
        digits_value(digits) * (suffix_multiplier(suffix)->0) > u64::MAX ==> r is None,
{
    let s = pre + digits + spaces + suffix + post;
    let m = suffix_multiplier(suffix)->0;
    let core = digits + spaces + suffix;
    // Trimming keeps the digits through the suffix.
    assert(s == pre + (core + post));
    assert forall|j: int| 0 <= j < pre.len() implies spec_is_whitespace(#[trigger] s[j]) by {
        assert(s[j] == pre[j]);
    }
    lemma_trim_start_skip(s, pre.len() as int);
    assert(s.subrange(pre.len() as int, s.len() as int) == core + post);
    assert((core + post)[0] == digits[0]);
    assert(is_digit(digits[0]));
    assert(trim_start_ws(core + post) == core + post);
    let cp = core + post;
    assert forall|j: int| core.len() <= j < cp.len() implies spec_is_whitespace(#[trigger] cp[j]) by {
        assert(cp[j] == post[j - core.len()]);
    }
    lemma_trim_end_skip(cp, core.len() as int);
    assert(cp.subrange(0, core.len() as int) == core);
    let t: Seq<char> = if suffix.len() > 0 {
        assert(core.last() == suffix.last());
        core
    } else {
        assert(core == digits + spaces);
        assert forall|j: int| digits.len() <= j < core.len() implies spec_is_whitespace(#[trigger] core[j]) by {
            assert(core[j] == spaces[j - digits.len()]);
        }
        lemma_trim_end_skip(core, digits.len() as int);
        assert(core.subrange(0, digits.len() as int) == digits);
        assert(digits.last() == digits[digits.len() - 1]);
        digits
    };
    assert(trim_ws(s) == t);
    // The numeric prefix is exactly the digits.
    let k = digits.len() as int;
    assert(t.take(k) == digits);
    assert forall|j: int| 0 <= j < k implies is_num_char(#[trigger] t[j]) by {
        assert(t[j] == digits[j]);
    }
    if k < t.len() {
        if spaces.len() > 0 {
            assert(t[k] == spaces[0]);
        } else {
            assert(t[k] == suffix[0]);
        }
    }
    assert(is_num_end(t, k));
    let kk = num_end(t);
    assert(is_num_end(t, kk));
    if kk < k {
        assert(is_num_char(t[kk]));
    }
    if kk > k {
        assert(is_num_char(t[k]));
    }
    assert(kk == k);
    // What follows the number is the suffix after the spaces.
    let rest = t.skip(k);
    let rest_is: Seq<char> = if suffix.len() > 0 { spaces + suffix } else { Seq::<char>::empty() };
    assert(rest == rest_is);
    if suffix.len() > 0 {
        assert forall|j: int| 0 <= j < spaces.len() implies spec_is_whitespace(#[trigger] rest[j]) by {
            assert(rest[j] == spaces[j]);
        }
        lemma_trim_start_skip(rest, spaces.len() as int);
        assert(rest.subrange(spaces.len() as int, rest.len() as int) == suffix);
        assert(!spec_is_whitespace(suffix[0]));
        assert(trim_start_ws(suffix) == suffix);
    } else {
        assert(trim_start_ws(rest) == rest);
        assert(rest == suffix);
    }
    assert(trim_start_ws(rest) == suffix);
    assert(size_parts(s) == Some((digits, m)));
    // The digits read as their value, without a dot.
    assert forall|j: int| 0 <= j < digits.len() implies digits[j] != '.' by {
        assert(is_digit(digits[j]));
    }
    lemma_count_zero(digits, '.');
    assert(digits[0] != '+');
    assert(spec_parse_unsigned(digits, u64::MAX as nat) == Some(digits_value(digits)));
}


/// What `parse_size_string` rejects: blank text; text that does not start
/// (once trimmed) with a digit or a dot, such as a sign or a bare unit; an
/// unknown unit after the number; and a number with more than one dot, or
/// a dot alone.
pub proof fn lemma_size_text_rejects(s: Seq<char>, r: Option<SizeText>)
    requires
        size_text_matches(r, s),
    ensures
        trim_ws(s).len() == 0 ==> r is None,
        trim_ws(s).len() > 0 && !is_num_char(trim_ws(s)[0]) ==> r is None,
        trim_ws(s).len() > 0 && suffix_multiplier(trim_start_ws(trim_ws(s).skip(num_end(trim_ws(s))))) is None
            ==> r is None,
        size_parts(s) matches Some((num, _)) && (count_char(num, '.') >= 2 || num == seq!['.']) ==> r is None,
{
    let t = trim_ws(s);
    if t.len() > 0 && !is_num_char(t[0]) {
        assert(is_num_end(t, 0));
        let kk = num_end(t);
        assert(is_num_end(t, kk));
        if kk > 0 {
            assert(is_num_char(t[0]));
        }
        assert(t.take(0) == Seq::<char>::empty());
        assert(count_char(Seq::<char>::empty(), '.') == 0);
        assert(spec_parse_unsigned(Seq::<char>::empty(), u64::MAX as nat) is None);
    }
    if let Some((num, _)) = size_parts(s) {
        if num == seq!['.'] {
            assert(num.drop_last() == Seq::<char>::empty());
            assert(num.last() == '.');
            assert(count_char(Seq::<char>::empty(), '.') == 0);
            assert(count_char(num, '.') == 1);
            assert(num.len() == 1);
        }
    }
}

} // verus!
