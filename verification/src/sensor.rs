//! Temperature sources: plain sysfs hwmon, no external tools.

use crate::config::Sensor;
use crate::text;
use vstd::prelude::*;
use vstd::slice::slice_subrange;
use vstd::string::*;

verus! {

/// One temperature input the system offers.
#[derive(Debug)]
pub struct Available {
    pub hwmon: String,
    /// Stable address of the chip: a PCI slot, plus an i2c address when
    /// several chips share one bus.
    ///
    /// Two of the same part answer to the same hwmon name - a pair of drives is
    /// `nvme` twice - so something has to tell them apart, and it cannot be the
    /// kernel's own numbering: `nvme0` and `nvme1` are handed out in probe
    /// order and swap between boots.
    pub device: String,
    /// What the kernel calls it right now: `nvme0`, `21-0050`, `phy0`. Fine to
    /// show, not to rely on.
    pub kernel: String,
    pub label: String,
    pub path: String,
}

#[verifier::ext_equal]
pub struct AvailableView {
    pub hwmon: Seq<char>,
    pub device: Seq<char>,
    pub kernel: Seq<char>,
    pub label: Seq<char>,
    pub path: Seq<char>,
}

impl View for Available {
    type V = AvailableView;

    open spec fn view(&self) -> AvailableView {
        AvailableView {
            hwmon: self.hwmon@,
            device: self.device@,
            kernel: self.kernel@,
            label: self.label@,
            path: self.path@,
        }
    }
}

impl Clone for Available {
    fn clone(&self) -> (r: Self)
        ensures
            r@ == self@,
    {
        Available {
            hwmon: self.hwmon.clone(),
            device: self.device.clone(),
            kernel: self.kernel.clone(),
            label: self.label.clone(),
            path: self.path.clone(),
        }
    }
}

impl PartialEq for Available {
    fn eq(&self, other: &Self) -> (r: bool) {
        self.hwmon == other.hwmon && self.device == other.device && self.kernel == other.kernel
            && self.label == other.label && self.path == other.path
    }
}

impl vstd::std_specs::cmp::PartialEqSpecImpl for Available {
    open spec fn obeys_eq_spec() -> bool {
        true
    }

    open spec fn eq_spec(&self, other: &Self) -> bool {
        self@ == other@
    }
}

/// The inputs of a list, each by what it says.
pub open spec fn available_views(list: Seq<Available>) -> Seq<AvailableView> {
    Seq::new(list.len(), |i: int| list[i]@)
}

// ---------------------------------------------------------------------------
// Addresses

/// Where the last slash stands before `end`, or -1.
pub open spec fn last_slash(address: Seq<char>, end: int) -> int
    decreases end,
{
    if end <= 0 {
        -1
    } else if address[end - 1] == '/' {
        end - 1
    } else {
        last_slash(address, end - 1)
    }
}

/// The readable end of an address: what follows the last slash, or a slot
/// without its always-zero domain.
pub open spec fn short(address: Seq<char>) -> Seq<char> {
    let slash = last_slash(address, address.len() as int);
    if slash >= 0 {
        address.skip(slash + 1)
    } else if text::begins(address, "0000:"@) {
        address.skip(5)
    } else {
        address
    }
}

/// The address as worth showing: a slot without its always-zero domain, or an
/// i2c address on its own.
pub fn short_address(address: &str) -> (r: &str)
    ensures
        r@ == short(address@),
{
    let chars = text::chars_of(address);
    let mut end: usize = chars.len();
    while end > 0 && chars[end - 1] != '/'
        invariant
            end <= chars@.len(),
            chars@ == address@,
            last_slash(address@, address@.len() as int) == last_slash(address@, end as int),
        decreases end,
    {
        end -= 1;
    }
    if end > 0 {
        proof {
            assert(address@.subrange(end as int, address@.len() as int) =~= address@.skip(
                end as int,
            ));
        }
        return address.substring_char(end, chars.len());
    }
    if text::begins_with(chars.as_slice(), "0000:") {
        proof {
            reveal_strlit("0000:");
            assert(address@.subrange(5, address@.len() as int) =~= address@.skip(5));
        }
        return address.substring_char(5, chars.len());
    }
    address
}

/// A hexadecimal digit in either case.
pub open spec fn hexdigit(c: char) -> bool {
    ('0' <= c && c <= '9') || ('a' <= c && c <= 'f') || ('A' <= c && c <= 'F')
}

fn is_hexdigit(c: char) -> (r: bool)
    ensures
        r == hexdigit(c),
{
    ('0' <= c && c <= '9') || ('a' <= c && c <= 'f') || ('A' <= c && c <= 'F')
}

/// `0000:05:00.0`: four, two, two and one hexadecimal digits with a colon or a
/// dot between them.
pub open spec fn pci_address(part: Seq<char>) -> bool {
    part.len() == 12 && forall|i: int|
        0 <= i < 12 ==> if i == 4 || i == 7 || i == 10 {
            #[trigger] part[i] == ':' || part[i] == '.'
        } else {
            hexdigit(part[i])
        }
}

/// `0000:05:00.0`
pub fn is_pci_address(part: &str) -> (r: bool)
    ensures
        r == pci_address(part@),
{
    let chars = text::chars_of(part);
    if chars.len() != 12 {
        return false;
    }
    let mut i: usize = 0;
    while i < 12
        invariant
            chars@ == part@,
            chars@.len() == 12,
            i <= 12,
            forall|k: int|
                0 <= k < i ==> if k == 4 || k == 7 || k == 10 {
                    #[trigger] part@[k] == ':' || part@[k] == '.'
                } else {
                    hexdigit(part@[k])
                },
        decreases 12 - i,
    {
        let c = chars[i];
        let fits = if i == 4 || i == 7 || i == 10 {
            c == ':' || c == '.'
        } else {
            is_hexdigit(c)
        };
        if !fits {
            proof {
                assert(part@[i as int] == c);
            }
            return false;
        }
        i += 1;
    }
    true
}

/// The chip's half of a name like `21-0050`: a bus number, a dash, and four
/// hexadecimal digits.
pub open spec fn i2c_client(part: Seq<char>) -> Option<Seq<char>> {
    let dash = text::next_at(part, 0, '-');
    if 0 < dash && part.len() == dash + 5 && (forall|i: int|
        0 <= i < dash ==> '0' <= #[trigger] part[i] && part[i] <= '9') && (forall|i: int|
        dash < i < part.len() ==> hexdigit(#[trigger] part[i])) {
        Some(part.skip(dash + 1))
    } else {
        None
    }
}

/// `21-0050` names bus 21, chip `0050`. Only the second half is the chip's.
pub fn i2c_client_address(part: &str) -> (r: Option<&str>)
    ensures
        text::str_view(r) == i2c_client(part@),
{
    let chars = text::chars_of(part);
    let dash = text::find_from(chars.as_slice(), 0, '-');
    if dash == 0 || chars.len() < 5 || chars.len() - 5 != dash {
        return None;
    }
    let mut i: usize = 0;
    while i < chars.len()
        invariant
            chars@ == part@,
            dash == text::next_at(part@, 0, '-'),
            0 < dash,
            chars@.len() == dash + 5,
            i <= chars@.len(),
            forall|k: int| 0 <= k < i && k < dash ==> '0' <= #[trigger] part@[k] && part@[k] <= '9',
            forall|k: int| dash < k < i ==> hexdigit(#[trigger] part@[k]),
        decreases chars@.len() - i,
    {
        let c = chars[i];
        let fits = if i < dash {
            '0' <= c && c <= '9'
        } else {
            i == dash || is_hexdigit(c)
        };
        if !fits {
            proof {
                assert(part@[i as int] == c);
            }
            return None;
        }
        i += 1;
    }
    proof {
        assert(part@.subrange(dash + 1, part@.len() as int) =~= part@.skip(dash + 1));
    }
    Some(part.substring_char(dash + 1, chars.len()))
}

/// The last PCI slot before `end` among the parts of a path, or -1.
pub open spec fn last_slot(parts: Seq<Seq<char>>, end: int) -> int
    decreases end,
{
    if end <= 0 {
        -1
    } else if pci_address(parts[end - 1]) {
        end - 1
    } else {
        last_slot(parts, end - 1)
    }
}

/// The i2c addresses among the parts of a path, a slash before each.
pub open spec fn clients(parts: Seq<Seq<char>>) -> Seq<char>
    decreases parts.len(),
{
    if parts.len() == 0 {
        Seq::empty()
    } else {
        clients(parts.drop_last()) + (match i2c_client(parts.last()) {
            Some(client) => "/"@ + client,
            None => Seq::empty(),
        })
    }
}

/// Where the chip at a path sits: its last PCI slot, and the i2c addresses
/// below that.
pub open spec fn address(parts: Seq<Seq<char>>) -> Option<Seq<char>> {
    let slot = last_slot(parts, parts.len() as int);
    if slot >= 0 {
        Some(parts[slot] + clients(parts.skip(slot + 1)))
    } else {
        None
    }
}

/// Where the chip sits, rather than what the kernel called it this time.
///
/// The sysfs path of a hwmon runs from a PCI slot down to the thing itself, so
/// the last slot in it is a stable address. What hangs below is not: `nvme0`
/// and `nvme1` are probe order, `i2c-21` is adapter registration order. The one
/// exception is an i2c client's own address, which is set in hardware, and
/// without it a pair of memory sticks on one bus stay indistinguishable.
pub fn address_of(parts: &Vec<String>) -> (r: Option<String>)
    ensures
        text::opt_view(r) == address(text::views(parts@)),
{
    let ghost all = text::views(parts@);
    let mut end: usize = parts.len();
    while end > 0 && !is_pci_address(parts[end - 1].as_str())
        invariant
            end <= parts@.len(),
            all == text::views(parts@),
            last_slot(all, all.len() as int) == last_slot(all, end as int),
        decreases end,
    {
        end -= 1;
    }
    if end == 0 {
        return None;
    }
    let mut r = parts[end - 1].clone();
    let mut i: usize = end;
    let ghost below = all.skip(end as int);
    proof {
        assert(below.take(0) =~= Seq::<Seq<char>>::empty());
        assert(r@ + clients(below.take(0)) =~= r@);
    }
    while i < parts.len()
        invariant
            0 < end <= i <= parts@.len(),
            all == text::views(parts@),
            below == all.skip(end as int),
            r@ == all[end - 1] + clients(below.take(i - end)),
        decreases parts@.len() - i,
    {
        let ghost before = r@;
        proof {
            let next = below.take(i + 1 - end);
            assert(next.drop_last() =~= below.take(i - end));
            assert(next.last() == parts@[i as int]@);
        }
        if let Some(client) = i2c_client_address(parts[i].as_str()) {
            r.append("/");
            r.append(client);
            proof {
                assert(r@ =~= before + ("/"@ + client@));
            }
        }
        proof {
            assert(r@ =~= all[end - 1] + clients(below.take(i + 1 - end)));
        }
        i += 1;
    }
    proof {
        assert(below.take(i - end) =~= below);
    }
    Some(r)
}

/// Do two paths lead to the same place in hardware: the same PCI slots and the
/// same i2c addresses, whatever the rest of it was called?
pub open spec fn same_place(parts: Seq<Seq<char>>, other: Seq<Seq<char>>) -> bool {
    &&& parts.len() == other.len()
    &&& forall|i: int|
        0 <= i < parts.len() ==> (pci_address(#[trigger] parts[i]) || pci_address(other[i])
            ==> parts[i] == other[i]) && i2c_client(parts[i]) == i2c_client(other[i])
}

proof fn lemma_same_slot(parts: Seq<Seq<char>>, other: Seq<Seq<char>>, end: int)
    requires
        same_place(parts, other),
        0 <= end <= parts.len(),
    ensures
        last_slot(parts, end) == last_slot(other, end),
        -1 <= last_slot(parts, end) < end,
        last_slot(parts, end) >= 0 ==> pci_address(parts[last_slot(parts, end)]),
    decreases end,
{
    if end > 0 {
        assert(parts[end - 1] == parts[end - 1]);
        lemma_same_slot(parts, other, end - 1);
    }
}

proof fn lemma_same_clients(parts: Seq<Seq<char>>, other: Seq<Seq<char>>)
    requires
        same_place(parts, other),
    ensures
        clients(parts) == clients(other),
    decreases parts.len(),
{
    if parts.len() > 0 {
        let n = parts.len() - 1;
        assert(i2c_client(parts[n]) == i2c_client(other[n]));
        assert forall|i: int| 0 <= i < n implies (pci_address(#[trigger] parts.drop_last()[i])
            || pci_address(other.drop_last()[i]) ==> parts.drop_last()[i] == other.drop_last()[i])
            && i2c_client(parts.drop_last()[i]) == i2c_client(other.drop_last()[i]) by {
            assert(parts.drop_last()[i] == parts[i]);
        }
        lemma_same_clients(parts.drop_last(), other.drop_last());
    }
}

/// What the kernel happened to call things this time - `nvme0` or `nvme1`, bus
/// 21 or 3 - does not show in an address.
pub proof fn law_addresses_outlast_a_reboot(parts: Seq<Seq<char>>, other: Seq<Seq<char>>)
    requires
        same_place(parts, other),
    ensures
        address(parts) == address(other),
{
    lemma_same_slot(parts, other, parts.len() as int);
    let slot = last_slot(parts, parts.len() as int);
    if slot >= 0 {
        let below = parts.skip(slot + 1);
        let others = other.skip(slot + 1);
        assert forall|i: int| 0 <= i < below.len() implies (pci_address(#[trigger] below[i])
            || pci_address(others[i]) ==> below[i] == others[i]) && i2c_client(below[i])
            == i2c_client(others[i]) by {
            assert(below[i] == parts[slot + 1 + i]);
        }
        lemma_same_clients(below, others);
        assert(parts[slot] == other[slot]);
    }
}

// ---------------------------------------------------------------------------
// Inputs

/// The number a sensor file holds, in thousandths of a degree.
pub open spec fn millidegrees(contents: Seq<char>) -> Option<int> {
    let number = text::trim(contents);
    if number.len() > 0 && number[0] == '-' {
        match text::unsigned(number.drop_first(), 10, 0x8000_0000_0000_0000) {
            Some(v) => if number.len() > 1 && number[1] == '+' {
                None
            } else {
                Some(-(v as int))
            },
            None => None,
        }
    } else {
        match text::unsigned(number, 10, 0x7FFF_FFFF_FFFF_FFFF) {
            Some(v) => Some(v as int),
            None => None,
        }
    }
}

/// A reading in whole degrees, cut towards zero; nothing outside what a byte
/// holds.
pub open spec fn degrees(contents: Seq<char>) -> Option<u8> {
    match millidegrees(contents) {
        Some(m) => if -1000 < m < 256_000 {
            Some((if m < 0 { 0 } else { m / 1000 }) as u8)
        } else {
            None
        },
        None => None,
    }
}

/// Read what an input holds, in whole degrees.
pub fn read(contents: &str) -> (r: Option<u8>)
    ensures
        r == degrees(contents@),
{
    let chars = text::chars_of(contents);
    let number = text::trimmed(chars.as_slice());
    if number.len() > 0 && number[0] == '-' {
        let rest = slice_subrange(number, 1, number.len());
        proof {
            assert(rest@ =~= number@.drop_first());
        }
        if rest.len() > 0 && rest[0] == '+' {
            return None;
        }
        match text::read_unsigned(rest, 10, 0x8000_0000_0000_0000) {
            Some(v) => if v < 1000 {
                Some(0)
            } else {
                None
            },
            None => None,
        }
    } else {
        match text::read_unsigned(number, 10, 0x7FFF_FFFF_FFFF_FFFF) {
            Some(v) => if v < 256_000 {
                Some((v / 1000) as u8)
            } else {
                None
            },
            None => None,
        }
    }
}

/// Is a file of a chip one of its temperatures?
pub open spec fn input(name: Seq<char>) -> bool {
    text::begins(name, "temp"@) && text::ends(name, "_input"@)
}

/// The temperatures among the files of a chip.
pub open spec fn inputs(names: Seq<Seq<char>>) -> Seq<Seq<char>>
    decreases names.len(),
{
    if names.len() == 0 {
        names
    } else if input(names.last()) {
        inputs(names.drop_last()).push(names.last())
    } else {
        inputs(names.drop_last())
    }
}

/// The temperatures a chip offers, in order, out of the files it has.
pub fn inputs_of(names: &Vec<String>) -> (r: Vec<String>)
    ensures
        text::views(r@) == text::in_order(inputs(text::views(names@))),
{
    let mut found: Vec<String> = Vec::new();
    let mut i: usize = 0;
    let ghost all = text::views(names@);
    proof {
        assert(all.take(0) =~= Seq::<Seq<char>>::empty());
        assert(text::views(found@) =~= Seq::<Seq<char>>::empty());
    }
    while i < names.len()
        invariant
            i <= names@.len(),
            all == text::views(names@),
            text::views(found@) == inputs(all.take(i as int)),
        decreases names@.len() - i,
    {
        let ghost before = text::views(found@);
        proof {
            let next = all.take(i + 1);
            assert(next.drop_last() =~= all.take(i as int));
            assert(next.last() == names@[i as int]@);
        }
        let chars = text::chars_of(names[i].as_str());
        if text::begins_with(chars.as_slice(), "temp") && text::ends_with(
            chars.as_slice(),
            "_input",
        ) {
            found.push(names[i].clone());
            proof {
                assert(text::views(found@) =~= before.push(names@[i as int]@));
            }
        }
        i += 1;
    }
    proof {
        assert(all.take(i as int) =~= all);
    }
    text::sort_names(found)
}

/// A file name with `_label` wherever it says `_input`.
pub open spec fn relabelled(name: Seq<char>) -> Seq<char>
    decreases name.len(),
{
    if name.len() == 0 {
        name
    } else if text::begins(name, "_input"@) && name.len() >= 6 {
        "_label"@ + relabelled(name.skip(6))
    } else {
        seq![name[0]] + relabelled(name.drop_first())
    }
}

/// The file next to an input that names it.
pub fn label_of(input: &str) -> (r: String)
    ensures
        r@ == relabelled(input@),
{
    let chars = text::chars_of(input);
    let mut r = String::new();
    let mut at: usize = 0;
    proof {
        reveal_strlit("_input");
        assert(input@.skip(0) =~= input@);
        assert(r@ + relabelled(input@) =~= relabelled(input@));
    }
    while at < chars.len()
        invariant
            chars@ == input@,
            at <= chars@.len(),
            "_input"@.len() == 6,
            r@ + relabelled(input@.skip(at as int)) == relabelled(input@),
        decreases chars@.len() - at,
    {
        let rest = slice_subrange(chars.as_slice(), at, chars.len());
        let ghost left = input@.skip(at as int);
        let ghost before = r@;
        proof {
            assert(rest@ =~= left);
        }
        if text::begins_with(rest, "_input") {
            r.append("_label");
            proof {
                assert(left.skip(6) =~= input@.skip(at + 6));
                assert(before + "_label"@ + relabelled(input@.skip(at + 6)) =~= before
                    + relabelled(left));
            }
            at += 6;
        } else {
            r.push(chars[at]);
            proof {
                assert(left.drop_first() =~= input@.skip(at + 1));
                assert(before.push(left[0]) + relabelled(input@.skip(at + 1)) =~= before
                    + relabelled(left));
            }
            at += 1;
        }
    }
    proof {
        assert(input@.skip(at as int) =~= Seq::<char>::empty());
        assert(r@ + Seq::<char>::empty() =~= r@);
    }
    r
}

/// What one hwmon directory holds.
#[derive(Debug)]
pub struct Chip {
    /// What the directory is called.
    pub dir: String,
    /// The `name` file, if there is one.
    pub name: Option<String>,
    /// What the kernel calls the device behind it; empty when it has none.
    pub kernel: String,
    /// The parts of the real path, if it could be resolved.
    pub parts: Option<Vec<String>>,
    /// The temperatures, in whatever order they came.
    pub inputs: Vec<Input>,
}

/// One temperature of a chip.
#[derive(Debug)]
pub struct Input {
    pub path: String,
    /// The file that names it, if there is one.
    pub label: Option<String>,
}

/// Where a run of temperatures is read.
pub open spec fn input_paths(inputs: Seq<Input>) -> Seq<Seq<char>> {
    Seq::new(inputs.len(), |i: int| inputs[i].path@)
}

fn paths_of(inputs: &Vec<Input>) -> (paths: Vec<String>)
    ensures
        text::views(paths@) == input_paths(inputs@),
        paths@.len() == inputs@.len(),
{
    let mut paths: Vec<String> = Vec::new();
    let mut i: usize = 0;
    while i < inputs.len()
        invariant
            i <= inputs@.len(),
            paths@.len() == i,
            forall|k: int| 0 <= k < i ==> (#[trigger] paths@[k])@ == inputs@[k].path@,
        decreases inputs@.len() - i,
    {
        paths.push(inputs[i].path.clone());
        i += 1;
    }
    proof {
        assert(text::views(paths@) =~= input_paths(inputs@));
    }
    paths
}

impl Chip {
    /// A stable address where there is one, the kernel's name where there is
    /// not.
    pub open spec fn device(self) -> Seq<char> {
        match self.parts {
            Some(parts) => match address(text::views(parts@)) {
                Some(address) => address,
                None => self.kernel@,
            },
            None => self.kernel@,
        }
    }

    /// Its temperatures in order of path, by their places.
    pub open spec fn order(self) -> Seq<int> {
        text::ranked(input_paths(self.inputs@))
    }

    /// One of its temperatures, as a config can refer to it.
    pub open spec fn entry(self, i: int) -> AvailableView {
        AvailableView {
            hwmon: text::trim(self.name->0@),
            device: self.device(),
            kernel: self.kernel@,
            label: match self.inputs@[i].label {
                Some(label) => text::trim(label@),
                None => Seq::empty(),
            },
            path: self.inputs@[i].path@,
        }
    }

    /// Everything it offers, in order of path. A hwmon without a name is not something a config
    /// can refer to.
    pub open spec fn entries(self) -> Seq<AvailableView> {
        if self.name is Some {
            Seq::new(self.inputs@.len(), |k: int| self.entry(self.order()[k]))
        } else {
            Seq::empty()
        }
    }
}

/// Everything a run of chips offers.
pub open spec fn offered(chips: Seq<Chip>) -> Seq<AvailableView>
    decreases chips.len(),
{
    if chips.len() == 0 {
        Seq::empty()
    } else {
        offered(chips.drop_last()) + chips.last().entries()
    }
}

/// What the directories of a run of chips are called.
pub open spec fn chip_dirs(chips: Seq<Chip>) -> Seq<Seq<char>> {
    Seq::new(chips.len(), |i: int| chips[i].dir@)
}

/// The chips in order of directory.
pub open spec fn by_dir(chips: Seq<Chip>) -> Seq<Chip> {
    Seq::new(chips.len(), |k: int| chips[text::ranked(chip_dirs(chips))[k]])
}

fn dirs_of(chips: &Vec<Chip>) -> (dirs: Vec<String>)
    ensures
        text::views(dirs@) == chip_dirs(chips@),
        dirs@.len() == chips@.len(),
{
    let mut dirs: Vec<String> = Vec::new();
    let mut i: usize = 0;
    while i < chips.len()
        invariant
            i <= chips@.len(),
            dirs@.len() == i,
            forall|k: int| 0 <= k < i ==> (#[trigger] dirs@[k])@ == chips@[k].dir@,
        decreases chips@.len() - i,
    {
        dirs.push(chips[i].dir.clone());
        i += 1;
    }
    proof {
        assert(text::views(dirs@) =~= chip_dirs(chips@));
    }
    dirs
}

/// What one chip offers.
fn offers(chip: &Chip) -> (found: Vec<Available>)
    ensures
        available_views(found@) == chip.entries(),
{
    let mut found: Vec<Available> = Vec::new();
    proof {
        assert(available_views(found@) =~= chip.entries().take(0));
    }
    // A hwmon without a name is no reason to stop looking at the rest.
    let name = match &chip.name {
        Some(name) => name,
        None => {
            proof {
                assert(chip.entries() =~= Seq::<AvailableView>::empty());
            }
            return found;
        },
    };
    let hwmon = text::trimmed_string(name.as_str());
    let address = match &chip.parts {
        Some(parts) => address_of(parts),
        None => None,
    };
    let device = match address {
        Some(address) => address,
        None => chip.kernel.clone(),
    };
    let paths = paths_of(&chip.inputs);
    let order = text::rank(&paths);
    let mut k: usize = 0;
    while k < order.len()
        invariant
            k <= order@.len(),
            order@.len() == chip.inputs@.len(),
            text::places(order@) == chip.order(),
            forall|i: int| 0 <= i < order@.len() ==> #[trigger] order@[i] < chip.inputs@.len(),
            chip.name == Some(*name),
            hwmon@ == text::trim(name@),
            device@ == chip.device(),
            available_views(found@) == chip.entries().take(k as int),
        decreases order@.len() - k,
    {
        let input = &chip.inputs[order[k]];
        let label = match &input.label {
            Some(label) => text::trimmed_string(label.as_str()),
            None => String::new(),
        };
        let entry = Available {
            hwmon: hwmon.clone(),
            device: device.clone(),
            kernel: chip.kernel.clone(),
            label,
            path: input.path.clone(),
        };
        let ghost before = found@;
        let ghost view = entry@;
        proof {
            assert(text::places(order@)[k as int] == order@[k as int]);
            assert(view =~= chip.entry(chip.order()[k as int]));
        }
        found.push(entry);
        proof {
            assert(available_views(found@) =~= available_views(before).push(view));
            assert(chip.entries().take(k + 1) =~= chip.entries().take(k as int).push(view));
        }
        k += 1;
    }
    proof {
        assert(chip.entries().take(k as int) =~= chip.entries());
    }
    found
}

/// Everything readable under `/sys/class/hwmon`, in order of directory, for
/// `flydigictl sensors` and for telling the user what they could have written
/// instead.
pub fn list(chips: &Vec<Chip>) -> (found: Vec<Available>)
    ensures
        available_views(found@) == offered(by_dir(chips@)),
{
    let dirs = dirs_of(chips);
    let order = text::rank(&dirs);
    let mut found: Vec<Available> = Vec::new();
    let mut i: usize = 0;
    let ghost sorted = by_dir(chips@);
    proof {
        assert(sorted.take(0) =~= Seq::<Chip>::empty());
        assert(available_views(found@) =~= Seq::<AvailableView>::empty());
    }
    while i < order.len()
        invariant
            i <= order@.len(),
            order@.len() == chips@.len(),
            text::places(order@) == text::ranked(chip_dirs(chips@)),
            forall|k: int| 0 <= k < order@.len() ==> #[trigger] order@[k] < chips@.len(),
            sorted == by_dir(chips@),
            available_views(found@) == offered(sorted.take(i as int)),
        decreases order@.len() - i,
    {
        let chip = &chips[order[i]];
        let ghost before = available_views(found@);
        proof {
            let next = sorted.take(i + 1);
            assert(next.drop_last() =~= sorted.take(i as int));
            assert(text::places(order@)[i as int] == order@[i as int]);
            assert(next.last() == *chip);
        }
        let mut more = offers(chip);
        found.append(&mut more);
        proof {
            assert(available_views(found@) =~= before + chip.entries());
        }
        i += 1;
    }
    proof {
        assert(sorted.take(i as int) =~= sorted);
    }
    found
}

/// Whatever order the directories come in, the chips are listed in theirs, and
/// the inputs of each in order of path.
pub proof fn law_inputs_are_listed_in_order(chips: Seq<Chip>, chip: Chip)
    ensures
        text::alphabetical(chip_dirs(by_dir(chips))),
        chip.name is Some ==> text::alphabetical(
            Seq::new(chip.entries().len(), |k: int| chip.entries()[k].path),
        ),
{
    let dirs = chip_dirs(chips);
    text::law_ranking_orders_every_name(dirs);
    assert forall|k: int| 0 <= k < chips.len() implies #[trigger] chip_dirs(by_dir(chips))[k]
        == dirs[text::ranked(dirs)[k]] by {
        assert(0 <= text::ranked(dirs)[k] < dirs.len());
    }
    assert(chip_dirs(by_dir(chips)) =~= text::at_places(dirs, text::ranked(dirs)));
    let paths = input_paths(chip.inputs@);
    text::law_ranking_orders_every_name(paths);
    if chip.name is Some {
        let listed = Seq::new(chip.entries().len(), |k: int| chip.entries()[k].path);
        assert forall|k: int| 0 <= k < paths.len() implies #[trigger] listed[k]
            == paths[chip.order()[k]] by {
            assert(0 <= text::ranked(paths)[k] < paths.len());
        }
        assert(listed =~= text::at_places(paths, text::ranked(paths)));
    }
}

/// Does an input answer to what a config says? Empty fields match anything.
///
/// Accepting the kernel name too keeps a hand-written `device = "nvme0"`
/// working, even though the picker writes the stable address.
pub open spec fn answers(entry: AvailableView, sensor: crate::config::SensorView) -> bool {
    &&& entry.hwmon == sensor.hwmon
    &&& sensor.device.len() == 0 || entry.device == sensor.device || entry.kernel == sensor.device
    &&& sensor.label.len() == 0 || entry.label == sensor.label
}

/// The paths of the inputs a config entry matches, in order.
pub open spec fn matched(
    list: Seq<AvailableView>,
    sensor: crate::config::SensorView,
) -> Seq<Seq<char>>
    decreases list.len(),
{
    if list.len() == 0 {
        Seq::empty()
    } else if answers(list.last(), sensor) {
        matched(list.drop_last(), sensor).push(list.last().path)
    } else {
        matched(list.drop_last(), sensor)
    }
}

/// All inputs a config entry matches.
///
/// Empty fields match anything: no label covers every input of that hwmon, and
/// no device covers every chip answering to that name. One curve then spans
/// both DIMMs or both drives without spelling out indices, while naming a
/// device picks out one of them.
pub fn resolve_all(sensor: &Sensor, list: &Vec<Available>) -> (paths: Vec<String>)
    ensures
        text::views(paths@) == matched(available_views(list@), sensor@),
{
    let mut paths: Vec<String> = Vec::new();
    let mut i: usize = 0;
    let ghost all = available_views(list@);
    proof {
        assert(all.take(0) =~= Seq::<AvailableView>::empty());
        assert(text::views(paths@) =~= Seq::<Seq<char>>::empty());
    }
    while i < list.len()
        invariant
            i <= list@.len(),
            all == available_views(list@),
            text::views(paths@) == matched(all.take(i as int), sensor@),
        decreases list@.len() - i,
    {
        let entry = &list[i];
        let ghost before = text::views(paths@);
        proof {
            let next = all.take(i + 1);
            assert(next.drop_last() =~= all.take(i as int));
            assert(next.last() == list@[i as int]@);
        }
        if entry.hwmon == sensor.hwmon && (sensor.device.as_str().is_empty() || entry.device
            == sensor.device || entry.kernel == sensor.device) && (sensor.label.as_str().is_empty()
            || entry.label == sensor.label) {
            paths.push(entry.path.clone());
            proof {
                assert(text::views(paths@) =~= before.push(entry.path@));
            }
        }
        i += 1;
    }
    proof {
        assert(all.take(i as int) =~= all);
    }
    paths
}

/// Leaving a field of a sensor empty never loses an input that matched.
pub proof fn law_naming_more_matches_less(
    entry: AvailableView,
    broad: crate::config::SensorView,
    narrow: crate::config::SensorView,
)
    requires
        broad.hwmon == narrow.hwmon,
        broad.device.len() == 0 || broad.device == narrow.device,
        broad.label.len() == 0 || broad.label == narrow.label,
        answers(entry, narrow),
    ensures
        answers(entry, broad),
{
}

// ---------------------------------------------------------------------------
// What the sensors promise

/// The readable end of an address is what stands behind its last slash; without
/// one it is the address, less an all-zero domain in front.
pub proof fn law_addresses_are_shown_by_their_end(front: Seq<char>, end: Seq<char>)
    requires
        forall|i: int| 0 <= i < end.len() ==> #[trigger] end[i] != '/',
    ensures
        short(front + seq!['/'] + end) == end,
        !text::begins(end, "0000:"@) ==> short(end) == end,
        short("0000:"@ + end) == end,
{
    let whole = front + seq!['/'] + end;
    lemma_last_slash(whole, whole.len() as int, front.len() as int);
    assert(whole.skip(front.len() as int + 1) =~= end);
    lemma_no_slash(end, end.len() as int);
    reveal_strlit("0000:");
    let slot = "0000:"@ + end;
    assert forall|i: int| 0 <= i < slot.len() implies #[trigger] slot[i] != '/' by {
        if i >= 5 {
            assert(slot[i] == end[i - 5]);
        } else {
            assert("0000:"@[i] != '/');
        }
    }
    lemma_no_slash(slot, slot.len() as int);
    assert(slot.take(5) =~= "0000:"@);
    assert(slot.skip(5) =~= end);
}

proof fn lemma_no_slash(address: Seq<char>, end: int)
    requires
        0 <= end <= address.len(),
        forall|i: int| 0 <= i < end ==> #[trigger] address[i] != '/',
    ensures
        last_slash(address, end) == -1,
    decreases end,
{
    if end > 0 {
        lemma_no_slash(address, end - 1);
    }
}

proof fn lemma_last_slash(address: Seq<char>, end: int, at: int)
    requires
        0 <= at < end <= address.len(),
        address[at] == '/',
        forall|i: int| at < i < end ==> #[trigger] address[i] != '/',
    ensures
        last_slash(address, end) == at,
    decreases end,
{
    if end - 1 > at {
        lemma_last_slash(address, end - 1, at);
    }
}

/// A PCI slot is domain, bus, device and function: four, two, two and one
/// hexadecimal digits, parted by a colon or a dot each, and nothing more.
pub proof fn law_slots_look_like_slots(part: Seq<char>, i: int)
    requires
        0 <= i < 12,
    ensures
        pci_address(part) ==> part.len() == 12,
        pci_address(part) && (i == 4 || i == 7 || i == 10) ==> part[i] == ':' || part[i] == '.',
        pci_address(part) && i != 4 && i != 7 && i != 10 ==> text::digit_value(
            part[i],
            16,
        ) is Some,
        part.len() == 12 && (forall|k: int|
            0 <= k < 12 ==> if k == 4 || k == 7 || k == 10 {
                #[trigger] part[k] == ':' || part[k] == '.'
            } else {
                text::digit_value(part[k], 16) is Some
            }) ==> pci_address(part),
{
}

/// A bus number, a dash and four hexadecimal digits are an i2c client, known by
/// those four; whatever is one has that shape.
pub proof fn law_clients_are_known_by_their_chip(
    bus: Seq<char>,
    chip: Seq<char>,
    part: Seq<char>,
)
    requires
        bus.len() > 0,
        forall|i: int| 0 <= i < bus.len() ==> '0' <= #[trigger] bus[i] <= '9',
        chip.len() == 4,
        forall|i: int| 0 <= i < 4 ==> text::digit_value(#[trigger] chip[i], 16) is Some,
    ensures
        i2c_client(bus + seq!['-'] + chip) == Some(chip),
        i2c_client(part) matches Some(found) ==> found.len() == 4 && text::ends(part, found)
            && part.len() > 5 && part[part.len() - 5] == '-' && (forall|i: int|
            0 <= i < part.len() - 5 ==> '0' <= #[trigger] part[i] <= '9'),
{
    let whole = bus + seq!['-'] + chip;
    let n = bus.len() as int;
    text::lemma_next_at(whole, 0, '-');
    let dash = text::next_at(whole, 0, '-');
    assert(whole[n] == '-');
    if dash < n {
        assert(whole[dash] == bus[dash]);
    }
    if dash > n {
        assert(whole[n] != '-');
    }
    assert forall|i: int| 0 <= i < n implies '0' <= #[trigger] whole[i] <= '9' by {
        assert(whole[i] == bus[i]);
    }
    assert forall|i: int| n < i < whole.len() implies hexdigit(#[trigger] whole[i]) by {
        assert(whole[i] == chip[i - n - 1]);
    }
    assert(whole.skip(n + 1) =~= chip);
    text::lemma_next_at(part, 0, '-');
}

/// A chip sits at the last PCI slot of its path, with the i2c addresses below
/// that behind it and nothing of what else the path is made of; a path without
/// a slot is no address.
pub proof fn law_a_chip_sits_at_its_last_slot(
    above: Seq<Seq<char>>,
    slot: Seq<char>,
    below: Seq<Seq<char>>,
    part: Seq<char>,
)
    requires
        pci_address(slot),
        forall|i: int| 0 <= i < below.len() ==> !pci_address(#[trigger] below[i]),
    ensures
        address(above + seq![slot] + below) == Some(slot + clients(below)),
        address(below) is None,
        clients(Seq::empty()).len() == 0,
        i2c_client(part) matches Some(chip) ==> clients(below.push(part)) == clients(below) + (
        "/"@ + chip),
        i2c_client(part) is None ==> clients(below.push(part)) == clients(below),
{
    let parts = above + seq![slot] + below;
    lemma_last_slot(parts, parts.len() as int, above.len() as int);
    assert(parts.skip(above.len() as int + 1) =~= below);
    lemma_no_slot(below, below.len() as int);
    assert(below.push(part).drop_last() =~= below);
    assert(clients(below) + Seq::<char>::empty() =~= clients(below));
}

proof fn lemma_last_slot(parts: Seq<Seq<char>>, end: int, at: int)
    requires
        0 <= at < end <= parts.len(),
        pci_address(parts[at]),
        forall|i: int| at < i < end ==> !pci_address(#[trigger] parts[i]),
    ensures
        last_slot(parts, end) == at,
    decreases end,
{
    if end - 1 > at {
        lemma_last_slot(parts, end - 1, at);
    }
}

proof fn lemma_no_slot(parts: Seq<Seq<char>>, end: int)
    requires
        0 <= end <= parts.len(),
        forall|i: int| 0 <= i < end ==> !pci_address(#[trigger] parts[i]),
    ensures
        last_slot(parts, end) == -1,
    decreases end,
{
    if end > 0 {
        lemma_no_slot(parts, end - 1);
    }
}

/// A sensor file holds thousandths of a degree: whole degrees are what is left
/// without the last three digits, from zero up to what a byte holds, and less
/// than a degree below zero is none.
pub proof fn law_readings_are_in_thousandths(contents: Seq<char>, m: nat)
    ensures
        text::trim(contents) == text::dec(m) && m < 256_000 ==> (degrees(contents) matches Some(d)
            && d == m / 1000),
        text::trim(contents) == text::dec(m) && m >= 256_000 ==> degrees(contents) is None,
        text::trim(contents) == seq!['-'] + text::dec(m) ==> degrees(contents) == (if m < 1000 {
            Some(0u8)
        } else {
            None
        }),
        text::trim(contents).len() == 0 ==> degrees(contents) is None,
        text::trim(contents).len() > 0 && text::trim(contents)[0] != '-' ==> degrees(contents) == (
        match text::unsigned(text::trim(contents), 10, 255_999) {
            Some(v) => Some((v / 1000) as u8),
            None => None,
        }),
{
    text::law_decimals_read_back(m, 0x7FFF_FFFF_FFFF_FFFF);
    text::law_decimals_read_back(m, 0x8000_0000_0000_0000);
    text::law_decimals_start_with_a_digit(m);
    let negative = seq!['-'] + text::dec(m);
    assert(negative.drop_first() =~= text::dec(m));
    assert(negative[1] == text::dec(m)[0]);
}

/// A temperature of a chip is a file whose name starts and ends like one, and
/// the file that names it is called the same with another ending.
pub proof fn law_inputs_and_their_labels(middle: Seq<char>, name: Seq<char>)
    requires
        forall|i: int| 0 <= i < middle.len() ==> #[trigger] middle[i] != '_',
    ensures
        input("temp"@ + middle + "_input"@),
        input(name) ==> text::begins(name, "temp"@) && text::ends(name, "_input"@),
        relabelled("temp"@ + middle + "_input"@) == "temp"@ + middle + "_label"@,
{
    let front = "temp"@ + middle;
    reveal_strlit("temp");
    reveal_strlit("_input");
    reveal_strlit("_label");
    text::law_joined_texts_begin_and_end(front, "_input"@, name);
    text::law_joined_texts_begin_and_end("temp"@, middle + "_input"@, name);
    assert(front + "_input"@ =~= "temp"@ + (middle + "_input"@));
    assert forall|i: int| 0 <= i < front.len() implies #[trigger] front[i] != '_' by {
        if i >= 4 {
            assert(front[i] == middle[i - 4]);
        } else {
            assert("temp"@[i] != '_');
        }
    }
    lemma_relabelled(front);
}

proof fn lemma_relabelled(front: Seq<char>)
    requires
        forall|i: int| 0 <= i < front.len() ==> #[trigger] front[i] != '_',
    ensures
        relabelled(front + "_input"@) == front + "_label"@,
    decreases front.len(),
{
    reveal_strlit("_input");
    reveal_strlit("_label");
    let name = front + "_input"@;
    if front.len() == 0 {
        assert(name =~= "_input"@);
        assert(name.take(6) =~= "_input"@);
        assert(name.skip(6) =~= Seq::<char>::empty());
        assert(relabelled(name.skip(6)) =~= Seq::<char>::empty());
        assert("_label"@ + Seq::<char>::empty() =~= front + "_label"@);
    } else {
        let rest = front.drop_first();
        lemma_relabelled(rest);
        assert(name.take(6)[0] == front[0]);
        assert("_input"@[0] == '_');
        assert(name.drop_first() =~= rest + "_input"@);
        assert(seq![front[0]] + (rest + "_label"@) =~= front + "_label"@);
    }
}

/// Of the files of a chip exactly the temperatures are picked out, each in its
/// place.
pub proof fn law_only_temperatures_are_picked_out(names: Seq<Seq<char>>, name: Seq<char>)
    ensures
        inputs(names).contains(name) <==> names.contains(name) && input(name),
        inputs(names.push(name)) == (if input(name) {
            inputs(names).push(name)
        } else {
            inputs(names)
        }),
    decreases names.len(),
{
    assert(names.push(name).drop_last() =~= names);
    if names.len() > 0 {
        let rest = names.drop_last();
        let last = names.last();
        law_only_temperatures_are_picked_out(rest, name);
        let found = inputs(names);
        let inner = inputs(rest);
        assert(names[names.len() - 1] == last);
        if inputs(rest).contains(name) {
            let k = choose|k: int| 0 <= k < inner.len() && inner[k] == name;
            assert(found[k] == name);
            let j = choose|j: int| 0 <= j < rest.len() && rest[j] == name;
            assert(names[j] == name);
        }
        if name == last && input(name) {
            assert(found[found.len() - 1] == name);
        }
        if found.contains(name) {
            let k = choose|k: int| 0 <= k < found.len() && found[k] == name;
            if k < inner.len() {
                assert(inner[k] == name);
            }
        }
        if names.contains(name) && name != last {
            let j = choose|j: int| 0 <= j < names.len() && names[j] == name;
            assert(rest[j] == name);
        }
    }
}

/// An input is offered under its chip's name and its own, both without white
/// space around them, and where it sits: at an address if its path has one.
pub proof fn law_an_input_is_offered_as_it_is(chip: Chip, i: int)
    requires
        0 <= i < chip.inputs@.len(),
        chip.name is Some,
    ensures
        ({
            let entry = chip.entry(i);
            &&& entry.hwmon == text::trim(chip.name->0@)
            &&& entry.kernel == chip.kernel@
            &&& entry.path == chip.inputs@[i].path@
            &&& chip.inputs@[i].label matches Some(label) ==> entry.label == text::trim(label@)
            &&& chip.inputs@[i].label is None ==> entry.label.len() == 0
            &&& chip.parts is None ==> entry.device == chip.kernel@
            &&& chip.parts matches Some(parts) ==> entry.device == (match address(
                text::views(parts@),
            ) {
                Some(address) => address,
                None => chip.kernel@,
            })
            &&& chip.entries().contains(entry)
            &&& chip.entries().len() == chip.inputs@.len()
        }),
{
    broadcast use vstd::seq_lib::group_to_multiset_ensures;

    let paths = input_paths(chip.inputs@);
    text::law_ranking_orders_every_name(paths);
    let order = chip.order();
    assert(order.to_multiset().count(i) == 1);
    assert(order.contains(i));
    let k = choose|k: int| 0 <= k < order.len() && order[k] == i;
    assert(chip.entries()[k] == chip.entry(i));
}

/// A chip without a name offers nothing, and what one chip offers takes nothing
/// from what another does.
pub proof fn law_chips_are_listed_one_after_the_other(chips: Seq<Chip>, chip: Chip)
    ensures
        chip.name is None ==> chip.entries().len() == 0,
        offered(chips.push(chip)) == offered(chips) + chip.entries(),
        offered(Seq::empty()).len() == 0,
{
    assert(chips.push(chip).drop_last() =~= chips);
}

/// A sensor matches an input by the chip's name, by its address or what the
/// kernel calls it where a device is asked for, and by the label where one is;
/// any of these that is asked for and differs rules the input out.
pub proof fn law_a_sensor_matches_what_it_names(
    entry: AvailableView,
    sensor: crate::config::SensorView,
)
    ensures
        answers(entry, sensor) ==> entry.hwmon == sensor.hwmon,
        answers(entry, sensor) && sensor.device.len() > 0 ==> sensor.device == entry.device
            || sensor.device == entry.kernel,
        answers(entry, sensor) && sensor.label.len() > 0 ==> sensor.label == entry.label,
        entry.hwmon == sensor.hwmon && sensor.device.len() == 0 && sensor.label.len() == 0
            ==> answers(entry, sensor),
        entry.hwmon == sensor.hwmon && entry.device == sensor.device && entry.label == sensor.label
            ==> answers(entry, sensor),
        entry.hwmon == sensor.hwmon && entry.kernel == sensor.device && entry.label == sensor.label
            ==> answers(entry, sensor),
        entry.hwmon == sensor.hwmon && entry.device == sensor.device && sensor.label.len() == 0
            ==> answers(entry, sensor),
        entry.hwmon == sensor.hwmon && sensor.device.len() == 0 && entry.label == sensor.label
            ==> answers(entry, sensor),
        entry.hwmon == sensor.hwmon && entry.kernel == sensor.device && sensor.label.len() == 0
            ==> answers(entry, sensor),
{
}

/// Every input that matches is read, where it is, and no other.
pub proof fn law_every_match_is_read(
    list: Seq<AvailableView>,
    sensor: crate::config::SensorView,
    i: int,
    path: Seq<char>,
)
    ensures
        0 <= i < list.len() && answers(list[i], sensor) ==> matched(list, sensor).contains(
            list[i].path,
        ),
        matched(list, sensor).contains(path) ==> exists|k: int|
            0 <= k < list.len() && answers(#[trigger] list[k], sensor) && list[k].path == path,
    decreases list.len(),
{
    if list.len() > 0 {
        let rest = list.drop_last();
        let inner = matched(rest, sensor);
        let all = matched(list, sensor);
        law_every_match_is_read(rest, sensor, i, path);
        if 0 <= i < list.len() && answers(list[i], sensor) {
            if i < rest.len() {
                assert(rest[i] == list[i]);
                let j = choose|j: int| 0 <= j < inner.len() && inner[j] == list[i].path;
                assert(all[j] == list[i].path);
            } else {
                assert(all[all.len() - 1] == list[i].path);
            }
        }
        if all.contains(path) {
            let j = choose|j: int| 0 <= j < all.len() && all[j] == path;
            if j < inner.len() {
                assert(inner[j] == path);
                let k = choose|k: int|
                    0 <= k < rest.len() && answers(#[trigger] rest[k], sensor) && rest[k].path
                        == path;
                assert(list[k] == rest[k]);
            } else {
                assert(answers(list[list.len() - 1], sensor));
            }
        }
    }
}

/// One more input behind the others is one more path behind theirs, if it
/// matches.
pub proof fn law_matches_are_read_in_order(
    list: Seq<AvailableView>,
    entry: AvailableView,
    sensor: crate::config::SensorView,
)
    ensures
        matched(list.push(entry), sensor) == (if answers(entry, sensor) {
            matched(list, sensor).push(entry.path)
        } else {
            matched(list, sensor)
        }),
        matched(Seq::empty(), sensor).len() == 0,
{
    assert(list.push(entry).drop_last() =~= list);
}

} // verus!
