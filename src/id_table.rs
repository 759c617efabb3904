//! Identifier tables: flat arrays of fixed-width entries, terminated by an
//! all-zero sentinel, whose single integer of driver data holds the byte
//! distance from the entry to a slot of typed side information laid out
//! right after the table.
use vstd::prelude::*;

verus! {

/// Width of the name field of an I2C identifier entry, terminating NUL included.
pub const I2C_NAME_SIZE: usize = 20;

/// Width of the compatible-string field of a firmware (device-tree) identifier entry.
pub const OF_COMPATIBLE_SIZE: usize = 128;

/// Size in bytes of one I2C identifier entry (name field, padding, driver data).
pub const I2C_ENTRY_SIZE: usize = 32;

/// Size in bytes of one firmware identifier entry (name, type and compatible
/// fields, driver data).
pub const OF_ENTRY_SIZE: usize = 200;

/// The two table formats understood by the bus's matchers.
#[derive(Clone, Copy, Debug, PartialEq, Eq, Structural)]
pub enum IdKind {
    /// Matched by exact device name.
    I2c,
    /// Matched against the device's firmware compatible strings.
    Of,
}

pub open spec fn name_width(kind: IdKind) -> nat {
    match kind {
        IdKind::I2c => I2C_NAME_SIZE as nat,
        IdKind::Of => OF_COMPATIBLE_SIZE as nat,
    }
}

pub open spec fn entry_size(kind: IdKind) -> nat {
    match kind {
        IdKind::I2c => I2C_ENTRY_SIZE as nat,
        IdKind::Of => OF_ENTRY_SIZE as nat,
    }
}

impl IdKind {
    /// Width of the name field of an entry of this kind.
    pub fn name_width(&self) -> (r: usize)
        ensures
            r == name_width(*self),
    {
        match self {
            IdKind::I2c => I2C_NAME_SIZE,
            IdKind::Of => OF_COMPATIBLE_SIZE,
        }
    }

    /// Size in bytes of an entry of this kind.
    pub fn entry_size(&self) -> (r: usize)
        ensures
            r == entry_size(*self),
    {
        match self {
            IdKind::I2c => I2C_ENTRY_SIZE,
            IdKind::Of => OF_ENTRY_SIZE,
        }
    }
}

/// An identifier that fits a name field of `width` bytes: not empty, no NUL
/// byte, and room left for the terminating NUL.
pub open spec fn valid_name(s: Seq<u8>, width: nat) -> bool {
    &&& 0 < s.len() < width
    &&& forall|i: int| 0 <= i < s.len() ==> s[i] != 0u8
}

/// The name field that stores `s`: its bytes, then NUL bytes up to `width`.
pub open spec fn raw_name(s: Seq<u8>, width: nat) -> Seq<u8> {
    Seq::new(width, |i: int| if i < s.len() { s[i] } else { 0u8 })
}

/// Two valid identifiers with the same name field are the same identifier.
pub proof fn lemma_raw_name_injective(a: Seq<u8>, b: Seq<u8>, width: nat)
    requires
        valid_name(a, width),
        valid_name(b, width),
        raw_name(a, width) == raw_name(b, width),
    ensures
        a == b,
{
    if a.len() < b.len() {
        assert(raw_name(a, width)[a.len() as int] == 0u8);
        assert(raw_name(b, width)[a.len() as int] == b[a.len() as int]);
    } else if b.len() < a.len() {
        assert(raw_name(b, width)[b.len() as int] == 0u8);
        assert(raw_name(a, width)[b.len() as int] == a[b.len() as int]);
    } else {
        assert forall|i: int| 0 <= i < a.len() implies a[i] == b[i] by {
            assert(raw_name(a, width)[i] == a[i]);
            assert(raw_name(b, width)[i] == b[i]);
        }
        assert(a =~= b);
    }
}

/// `r` is the index of the first identifier equal to `key`, or nothing when
/// none is.
pub open spec fn is_first_match(ids: Seq<Seq<u8>>, key: Seq<u8>, r: Option<usize>) -> bool {
    match r {
        Some(i) => {
            &&& i < ids.len()
            &&& ids[i as int] == key
            &&& forall|j: int| 0 <= j < i ==> ids[j] != key
        },
        None => forall|j: int| 0 <= j < ids.len() ==> ids[j] != key,
    }
}

/// `r` is what the firmware matcher picks for a device whose compatible
/// strings are `compats`, most specific first: the first entry for the first
/// string the table lists, or nothing when it lists none of them.
pub open spec fn is_best_compatible(ids: Seq<Seq<u8>>, compats: Seq<Seq<u8>>, r: Option<usize>) -> bool {
    match r {
        Some(i) => exists|k: int|
            0 <= k < compats.len() && is_first_match(ids, #[trigger] compats[k], Some(i)) && forall|
                j: int,
            |
                0 <= j < k ==> is_first_match(ids, #[trigger] compats[j], None),
        None => forall|k: int| 0 <= k < compats.len() ==> is_first_match(ids, #[trigger] compats[k], None),
    }
}

/// The index of the first identifier equal to `key`.
pub open spec fn first_match(ids: Seq<Seq<u8>>, key: Seq<u8>) -> Option<int>
    decreases ids.len(),
{
    if ids.len() == 0 {
        None
    } else if ids[0] == key {
        Some(0)
    } else {
        match first_match(ids.drop_first(), key) {
            Some(j) => Some(j + 1),
            None => None,
        }
    }
}

/// The entry the firmware matcher picks for compatible strings `compats`.
pub open spec fn best_compatible(ids: Seq<Seq<u8>>, compats: Seq<Seq<u8>>) -> Option<int>
    decreases compats.len(),
{
    if compats.len() == 0 {
        None
    } else {
        match first_match(ids, compats[0]) {
            Some(i) => Some(i),
            None => best_compatible(ids, compats.drop_first()),
        }
    }
}

pub open spec fn as_index(r: Option<usize>) -> Option<int> {
    match r {
        Some(i) => Some(i as int),
        None => None,
    }
}

/// The matcher's characterisation of its result is the one `first_match` gives.
pub proof fn lemma_first_match_is(ids: Seq<Seq<u8>>, key: Seq<u8>, r: Option<usize>)
    requires
        is_first_match(ids, key, r),
    ensures
        first_match(ids, key) == as_index(r),
    decreases ids.len(),
{
    if ids.len() == 0 {
    } else if ids[0] == key {
    } else {
        let rest = ids.drop_first();
        let r2: Option<usize> = match r {
            Some(i) => Some((i - 1) as usize),
            None => None,
        };
        match r {
            Some(i) => {
                assert forall|j: int| 0 <= j < i - 1 implies rest[j] != key by {
                    assert(rest[j] == ids[j + 1]);
                }
                assert(rest[i - 1] == ids[i as int]);
            },
            None => {
                assert forall|j: int| 0 <= j < rest.len() implies rest[j] != key by {
                    assert(rest[j] == ids[j + 1]);
                }
            },
        }
        lemma_first_match_is(rest, key, r2);
    }
}

/// The firmware matcher's characterisation of its result is the one
/// `best_compatible` gives.
pub proof fn lemma_best_compatible_is(ids: Seq<Seq<u8>>, compats: Seq<Seq<u8>>, r: Option<usize>)
    requires
        is_best_compatible(ids, compats, r),
    ensures
        best_compatible(ids, compats) == as_index(r),
    decreases compats.len(),
{
    if compats.len() == 0 {
        if let Some(i) = r {
            let k = choose|k: int|
                0 <= k < compats.len() && is_first_match(ids, #[trigger] compats[k], Some(i))
                    && forall|j: int| 0 <= j < k ==> is_first_match(ids, #[trigger] compats[j], None);
        }
    } else {
        let rest = compats.drop_first();
        match r {
            Some(i) => {
                let k = choose|k: int|
                    0 <= k < compats.len() && is_first_match(ids, #[trigger] compats[k], Some(i))
                        && forall|j: int| 0 <= j < k ==> is_first_match(ids, #[trigger] compats[j], None);
                if k == 0 {
                    lemma_first_match_is(ids, compats[0], Some(i));
                } else {
                    assert(is_first_match(ids, compats[0], None));
                    lemma_first_match_is(ids, compats[0], None);
                    assert(rest[k - 1] == compats[k]);
                    assert forall|j: int| 0 <= j < k - 1 implies is_first_match(ids, #[trigger] rest[j], None) by {
                        assert(rest[j] == compats[j + 1]);
                    }
                    lemma_best_compatible_is(ids, rest, r);
                }
            },
            None => {
                assert(is_first_match(ids, compats[0], None));
                lemma_first_match_is(ids, compats[0], None);
                assert forall|j: int| 0 <= j < rest.len() implies is_first_match(ids, #[trigger] rest[j], None) by {
                    assert(rest[j] == compats[j + 1]);
                }
                lemma_best_compatible_is(ids, rest, r);
            },
        }
    }
}

/// Compares a NUL-padded name field with an identifier, as the bus's string
/// comparison does.
fn names_equal(field: &Vec<u8>, key: &Vec<u8>) -> (r: bool)
    requires
        key@.len() < field@.len(),
    ensures
        r == (field@ == raw_name(key@, field@.len())),
{
    let mut j: usize = 0;
    while j < field.len()
        invariant
            key@.len() < field@.len(),
            j <= field@.len(),
            forall|k: int| 0 <= k < j ==> field@[k] == raw_name(key@, field@.len())[k],
        decreases field@.len() - j,
    {
        let expected: u8 = if j < key.len() {
            key[j]
        } else {
            0u8
        };
        if field[j] != expected {
            assert(field@[j as int] != raw_name(key@, field@.len())[j as int]);
            return false;
        }
        j += 1;
    }
    assert(field@ =~= raw_name(key@, field@.len()));
    true
}

/// One entry as the bus stores it: a NUL-padded name field and one integer of
/// driver data.
#[derive(Debug)]
pub struct RawDeviceId {
    pub name: Vec<u8>,
    pub driver_data: isize,
}

/// Builds the entry that stores `name` in a field of `width` bytes, with
/// `offset` as its driver data.
fn raw_entry(name: &Vec<u8>, width: usize, offset: isize) -> (r: RawDeviceId)
    requires
        name@.len() < width,
    ensures
        r.name@ == raw_name(name@, width as nat),
        r.driver_data == offset,
{
    let mut field: Vec<u8> = Vec::with_capacity(width);
    let mut i: usize = 0;
    while i < width
        invariant
            name@.len() < width,
            i <= width,
            field@.len() == i,
            forall|j: int| 0 <= j < i ==> field@[j] == raw_name(name@, width as nat)[j],
        decreases width - i,
    {
        if i < name.len() {
            field.push(name[i]);
        } else {
            field.push(0u8);
        }
        i += 1;
    }
    assert(field@ =~= raw_name(name@, width as nat));
    RawDeviceId { name: field, driver_data: offset }
}

/// An I2C device identifier: the device name the bus matches exactly.
#[derive(Debug)]
pub struct DeviceId(pub Vec<u8>);

impl DeviceId {
    /// The table entry for this identifier, carrying `offset` as driver data.
    pub fn to_rawid(&self, offset: isize) -> (r: RawDeviceId)
        requires
            self.0@.len() < I2C_NAME_SIZE,
        ensures
            r.name@ == raw_name(self.0@, I2C_NAME_SIZE as nat),
            r.driver_data == offset,
    {
        raw_entry(&self.0, I2C_NAME_SIZE, offset)
    }
}

/// A firmware identifier: a compatible string the bus matches against the
/// device's own compatible list.
#[derive(Debug)]
pub struct OfDeviceId(pub Vec<u8>);

impl OfDeviceId {
    /// The table entry for this identifier, carrying `offset` as driver data.
    pub fn to_rawid(&self, offset: isize) -> (r: RawDeviceId)
        requires
            self.0@.len() < OF_COMPATIBLE_SIZE,
        ensures
            r.name@ == raw_name(self.0@, OF_COMPATIBLE_SIZE as nat),
            r.driver_data == offset,
    {
        raw_entry(&self.0, OF_COMPATIBLE_SIZE, offset)
    }
}


/// Byte address of entry `i`, counted from the start of the table.
pub open spec fn entry_addr(kind: IdKind, i: int) -> int {
    i * entry_size(kind)
}

/// Byte address of the side array: right after the `n` entries and the sentinel.
pub open spec fn side_base(kind: IdKind, n: nat) -> int {
    ((n + 1) * entry_size(kind)) as int
}

/// Byte address of side slot `j`, each slot `slot_size` bytes wide.
pub open spec fn slot_addr(kind: IdKind, n: nat, slot_size: nat, j: int) -> int {
    side_base(kind, n) + j * slot_size
}

/// The driver data stored in entry `i`: the distance from the entry to its slot.
pub open spec fn side_offset(kind: IdKind, n: nat, slot_size: nat, i: int) -> int {
    slot_addr(kind, n, slot_size, i) - entry_addr(kind, i)
}

/// The table and its side array fit in the address range an offset can span.
pub open spec fn layout_fits(kind: IdKind, n: nat, slot_size: nat) -> bool {
    &&& 0 < slot_size
    &&& side_base(kind, n) + n * slot_size <= isize::MAX
}

/// The side slot that driver data `offset` of entry `i` designates, if it is
/// non-zero and lands on a slot boundary inside the side array.
pub open spec fn slot_of(kind: IdKind, n: nat, slot_size: nat, i: int, offset: int) -> Option<int> {
    let target = entry_addr(kind, i) + offset;
    let rel = target - side_base(kind, n);
    if offset != 0 && 0 < slot_size && 0 <= rel && rel % (slot_size as int) == 0 && rel / (
    slot_size as int) < n {
        Some(rel / (slot_size as int))
    } else {
        None
    }
}

/// Every real entry's offset is positive and leads back to the entry's own slot;
/// so no real entry ever carries the reserved offset zero.
pub proof fn lemma_offset_reaches_own_slot(kind: IdKind, n: nat, slot_size: nat, i: int)
    requires
        layout_fits(kind, n, slot_size),
        0 <= i < n,
    ensures
        0 < side_offset(kind, n, slot_size, i) <= isize::MAX,
        slot_of(kind, n, slot_size, i, side_offset(kind, n, slot_size, i)) == Some(i),
{
    let e = entry_size(kind) as int;
    let s = slot_size as int;
    assert(e > 0);
    assert(side_offset(kind, n, slot_size, i) == (n + 1 - i) * e + i * s) by (nonlinear_arith)
        requires
            side_offset(kind, n, slot_size, i) == (n + 1) * e + i * s - i * e,
    ;
    assert((n + 1 - i) * e > 0) by (nonlinear_arith)
        requires
            n + 1 - i > 0,
            e > 0,
    ;
    assert(i * s >= 0 && i * s <= n * s) by (nonlinear_arith)
        requires
            0 <= i < n,
            s > 0,
    ;
    assert((n + 1 - i) * e <= (n + 1) * e) by (nonlinear_arith)
        requires
            0 <= i,
            e > 0,
    ;
    let rel = entry_addr(kind, i) + side_offset(kind, n, slot_size, i) - side_base(kind, n);
    assert(rel == i * s);
    assert((i * s) % s == 0 && (i * s) / s == i) by (nonlinear_arith)
        requires
            s > 0,
            i >= 0,
    ;
}

/// The driver data of entry `i` in a table of `n` entries: the distance in
/// bytes from the entry to its side slot.
fn offset_for(kind: IdKind, n: usize, slot_size: usize, i: usize) -> (r: isize)
    requires
        layout_fits(kind, n as nat, slot_size as nat),
        i < n,
    ensures
        r == side_offset(kind, n as nat, slot_size as nat, i as int),
{
    let e = kind.entry_size();
    proof {
        let ei = e as int;
        let s = slot_size as int;
        assert(i * s <= n * s && i * ei <= (n + 1) * ei && n + 1 <= (n + 1) * ei) by (nonlinear_arith)
            requires
                i < n,
                s > 0,
                ei > 0,
        ;
        lemma_offset_reaches_own_slot(kind, n as nat, slot_size as nat, i as int);
    }
    let entry = i * e;
    let slot = (n + 1) * e + i * slot_size;
    (slot - entry) as isize
}

/// An identifier table together with its side array of optional per-entry
/// information. Built once; never changed afterwards.
pub struct IdTable<U> {
    kind: IdKind,
    entries: Vec<RawDeviceId>,
    infos: Vec<Option<U>>,
    slot_size: usize,
    ids: Ghost<Seq<Seq<u8>>>,
}

impl<U> IdTable<U> {
    /// Which matcher this table is meant for.
    pub closed spec fn kind_spec(&self) -> IdKind {
        self.kind
    }

    /// The identifiers the table was built from, in order.
    pub closed spec fn ids(&self) -> Seq<Seq<u8>> {
        self.ids@
    }

    /// The side array: the information supplied with each identifier.
    pub closed spec fn infos(&self) -> Seq<Option<U>> {
        self.infos@
    }

    /// Width in bytes of one side slot.
    pub closed spec fn slot_size_spec(&self) -> nat {
        self.slot_size as nat
    }

    /// The raw entry at index `i` (index `ids().len()` is the sentinel).
    pub closed spec fn entry(&self, i: int) -> RawDeviceId {
        self.entries@[i]
    }

    /// Well-formedness: one raw entry per identifier storing its name and the
    /// offset of its own side slot, then an all-zero sentinel.
    pub closed spec fn wf(&self) -> bool {
        let n = self.ids@.len();
        let w = name_width(self.kind);
        &&& self.entries@.len() == n + 1
        &&& self.infos@.len() == n
        &&& layout_fits(self.kind, n, self.slot_size as nat)
        &&& forall|i: int|
            #![trigger self.entries@[i]]
            0 <= i < n ==> {
                &&& valid_name(self.ids@[i], w)
                &&& self.entries@[i].name@ == raw_name(self.ids@[i], w)
                &&& self.entries@[i].driver_data == side_offset(
                    self.kind,
                    n,
                    self.slot_size as nat,
                    i,
                )
            }
        &&& self.entries@[n as int].name@ == raw_name(Seq::empty(), w)
        &&& self.entries@[n as int].driver_data == 0
    }

    /// What resolving entry `i` yields: the side slot its driver data designates,
    /// or nothing when the offset is zero.
    pub closed spec fn side_info(&self, i: int) -> Option<U> {
        match slot_of(
            self.kind,
            self.ids@.len(),
            self.slot_size as nat,
            i,
            self.entries@[i].driver_data as int,
        ) {
            Some(j) => self.infos@[j],
            None => None,
        }
    }

    /// Builds an I2C table from identifiers and the information that goes with
    /// each, `slot_size` bytes per side slot.
    pub fn new_i2c(ids: Vec<DeviceId>, infos: Vec<Option<U>>, slot_size: usize) -> (t: IdTable<U>)
        requires
            ids@.len() == infos@.len(),
            layout_fits(IdKind::I2c, ids@.len(), slot_size as nat),
            forall|i: int| 0 <= i < ids@.len() ==> valid_name(#[trigger] ids@[i].0@, I2C_NAME_SIZE as nat),
        ensures
            t.wf(),
            t.kind_spec() == IdKind::I2c,
            t.ids() == ids@.map_values(|d: DeviceId| d.0@),
            t.infos() == infos@,
            t.slot_size_spec() == slot_size,
    {
        let n = ids.len();
        let ghost names = ids@.map_values(|d: DeviceId| d.0@);
        let mut entries: Vec<RawDeviceId> = Vec::new();
        let mut i: usize = 0;
        while i < n
            invariant
                n == ids@.len(),
                names == ids@.map_values(|d: DeviceId| d.0@),
                layout_fits(IdKind::I2c, n as nat, slot_size as nat),
                forall|k: int| 0 <= k < n ==> valid_name(#[trigger] ids@[k].0@, I2C_NAME_SIZE as nat),
                i <= n,
                entries@.len() == i,
                forall|k: int|
                    #![trigger entries@[k]]
                    0 <= k < i ==> {
                        &&& entries@[k].name@ == raw_name(names[k], I2C_NAME_SIZE as nat)
                        &&& entries@[k].driver_data == side_offset(
                            IdKind::I2c,
                            n as nat,
                            slot_size as nat,
                            k,
                        )
                    },
            decreases n - i,
        {
            let offset = offset_for(IdKind::I2c, n, slot_size, i);
            entries.push(ids[i].to_rawid(offset));
            i += 1;
        }
        entries.push(raw_entry(&Vec::new(), I2C_NAME_SIZE, 0));
        let t = IdTable { kind: IdKind::I2c, entries, infos, slot_size, ids: Ghost(names) };
        assert(t.entries@[n as int] == entries@[n as int]);
        t
    }

    /// Builds a firmware table from compatible strings and the information that
    /// goes with each, `slot_size` bytes per side slot.
    pub fn new_of(ids: Vec<OfDeviceId>, infos: Vec<Option<U>>, slot_size: usize) -> (t: IdTable<U>)
        requires
            ids@.len() == infos@.len(),
            layout_fits(IdKind::Of, ids@.len(), slot_size as nat),
            forall|i: int| 0 <= i < ids@.len() ==> valid_name(#[trigger] ids@[i].0@, OF_COMPATIBLE_SIZE as nat),
        ensures
            t.wf(),
            t.kind_spec() == IdKind::Of,
            t.ids() == ids@.map_values(|d: OfDeviceId| d.0@),
            t.infos() == infos@,
            t.slot_size_spec() == slot_size,
    {
        let n = ids.len();
        let ghost names = ids@.map_values(|d: OfDeviceId| d.0@);
        let mut entries: Vec<RawDeviceId> = Vec::new();
        let mut i: usize = 0;
        while i < n
            invariant
                n == ids@.len(),
                names == ids@.map_values(|d: OfDeviceId| d.0@),
                layout_fits(IdKind::Of, n as nat, slot_size as nat),
                forall|k: int| 0 <= k < n ==> valid_name(#[trigger] ids@[k].0@, OF_COMPATIBLE_SIZE as nat),
                i <= n,
                entries@.len() == i,
                forall|k: int|
                    #![trigger entries@[k]]
                    0 <= k < i ==> {
                        &&& entries@[k].name@ == raw_name(names[k], OF_COMPATIBLE_SIZE as nat)
                        &&& entries@[k].driver_data == side_offset(
                            IdKind::Of,
                            n as nat,
                            slot_size as nat,
                            k,
                        )
                    },
            decreases n - i,
        {
            let offset = offset_for(IdKind::Of, n, slot_size, i);
            entries.push(ids[i].to_rawid(offset));
            i += 1;
        }
        entries.push(raw_entry(&Vec::new(), OF_COMPATIBLE_SIZE, 0));
        let t = IdTable { kind: IdKind::Of, entries, infos, slot_size, ids: Ghost(names) };
        assert(t.entries@[n as int] == entries@[n as int]);
        t
    }

    /// Resolves the side information of entry `i` (index `len()` is the
    /// sentinel): zero driver data means none; otherwise the entry's address
    /// plus its offset is the address of a side slot, whose content is returned.
    pub fn info_at(&self, i: usize) -> (r: Option<&U>)
        requires
            self.wf(),
            i <= self.ids().len(),
        ensures
            r is Some <==> self.side_info(i as int) is Some,
            r is Some ==> *r.unwrap() == self.side_info(i as int).unwrap(),
    {
        let offset = self.entries[i].driver_data;
        if offset == 0 {
            return None;
        }
        let n = self.infos.len();
        let e = self.kind.entry_size();
        proof {
            let ei = e as int;
            let s = self.slot_size as int;
            lemma_offset_reaches_own_slot(self.kind, n as nat, self.slot_size as nat, i as int);
            assert(i * s <= n * s && i * ei <= (n + 1) * ei && n + 1 <= (n + 1) * ei)
                by (nonlinear_arith)
                requires
                    i < n,
                    s > 0,
                    ei > 0,
            ;
        }
        let target = i * e + offset as usize;
        let base = (n + 1) * e;
        let slot = (target - base) / self.slot_size;
        self.infos[slot].as_ref()
    }

    /// The bus's exact-name matcher: walks the entries up to the sentinel and
    /// returns the index of the first whose name field stores `key`.
    pub fn match_name(&self, key: &Vec<u8>) -> (r: Option<usize>)
        requires
            self.wf(),
            valid_name(key@, name_width(self.kind_spec())),
        ensures
            is_first_match(self.ids(), key@, r),
    {
        let n = self.infos.len();
        let ghost w = name_width(self.kind);
        let mut i: usize = 0;
        while self.entries[i].name[0] != 0u8
            invariant
                self.wf(),
                n == self.ids@.len(),
                w == name_width(self.kind),
                valid_name(key@, w),
                i <= n,
                forall|j: int| 0 <= j < i ==> self.ids@[j] != key@,
            decreases n - i,
        {
            assert(i < n) by {
                if i == n {
                    assert(self.entries@[i as int].name@[0] == raw_name(Seq::empty(), w)[0]);
                }
            }
            if names_equal(&self.entries[i].name, key) {
                proof {
                    lemma_raw_name_injective(self.ids@[i as int], key@, w);
                }
                return Some(i);
            }
            i += 1;
        }
        assert(i == n) by {
            if i < n {
                assert(self.entries@[i as int].name@[0] == raw_name(self.ids@[i as int], w)[0]);
            }
        }
        None
    }

    /// The bus's firmware matcher: the device's compatible strings are tried
    /// from most to least specific, and the first that the table lists picks
    /// the table's first entry for it.
    pub fn match_compatible(&self, compatible: &Vec<Vec<u8>>) -> (r: Option<usize>)
        requires
            self.wf(),
            forall|k: int|
                0 <= k < compatible@.len() ==> valid_name(
                    #[trigger] compatible@[k]@,
                    name_width(self.kind_spec()),
                ),
        ensures
            is_best_compatible(self.ids(), compatible@.map_values(|c: Vec<u8>| c@), r),
    {
        let ghost compats = compatible@.map_values(|c: Vec<u8>| c@);
        let mut k: usize = 0;
        while k < compatible.len()
            invariant
                self.wf(),
                compats == compatible@.map_values(|c: Vec<u8>| c@),
                forall|k: int|
                    0 <= k < compatible@.len() ==> valid_name(
                        #[trigger] compatible@[k]@,
                        name_width(self.kind_spec()),
                    ),
                k <= compatible@.len(),
                forall|j: int| 0 <= j < k ==> is_first_match(self.ids(), #[trigger] compats[j], None),
            decreases compatible@.len() - k,
        {
            let m = self.match_name(&compatible[k]);
            if m.is_some() {
                assert(is_first_match(self.ids(), compats[k as int], m));
                return m;
            }
            k += 1;
        }
        None
    }

    /// Which matcher this table is meant for.
    pub fn kind(&self) -> (r: IdKind)
        ensures
            r == self.kind_spec(),
    {
        self.kind
    }

    /// Number of real entries (the sentinel not counted).
    pub fn len(&self) -> (r: usize)
        requires
            self.wf(),
        ensures
            r == self.ids().len(),
    {
        self.infos.len()
    }
}


/// Resolving a real entry of a well-formed table yields exactly the information
/// supplied with its identifier (nothing when none was supplied).
pub proof fn lemma_resolves_supplied_info<U>(t: &IdTable<U>, i: int)
    requires
        t.wf(),
        0 <= i < t.ids().len(),
    ensures
        t.side_info(i) == t.infos()[i],
{
    lemma_offset_reaches_own_slot(t.kind, t.ids@.len(), t.slot_size as nat, i);
    assert(t.entries@[i].driver_data == side_offset(t.kind, t.ids@.len(), t.slot_size as nat, i));
}

/// The sentinel never stores a valid identifier, so no lookup can match it, and
/// resolving it yields nothing.
pub proof fn lemma_sentinel_inert<U>(t: &IdTable<U>, key: Seq<u8>)
    requires
        t.wf(),
        valid_name(key, name_width(t.kind_spec())),
    ensures
        t.entry(t.ids().len() as int).name@ != raw_name(key, name_width(t.kind_spec())),
        t.side_info(t.ids().len() as int) is None,
{
    let w = name_width(t.kind);
    assert(raw_name(key, w)[0] == key[0]);
    assert(raw_name(Seq::empty(), w)[0] == 0u8);
}

} // verus!
