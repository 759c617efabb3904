//! I2C drivers: the driver contract, the per-device client record, the bus's
//! registration bookkeeping, and the adapter that binds a typed driver to the
//! bus through fixed probe / remove callbacks.
use vstd::prelude::*;
use crate::error::{Error, EBUSY, EINVAL};
use crate::id_table::{
    IdKind, IdTable, I2C_NAME_SIZE, OF_COMPATIBLE_SIZE, best_compatible, first_match,
    lemma_best_compatible_is, lemma_first_match_is, name_width, valid_name,
};

verus! {

/// Byte-wise equality of two byte strings.
fn bytes_equal(a: &Vec<u8>, b: &Vec<u8>) -> (r: bool)
    ensures
        r == (a@ == b@),
{
    if a.len() != b.len() {
        return false;
    }
    let mut i: usize = 0;
    while i < a.len()
        invariant
            a@.len() == b@.len(),
            i <= a@.len(),
            forall|j: int| 0 <= j < i ==> a@[j] == b@[j],
        decreases a@.len() - i,
    {
        if a[i] != b[i] {
            return false;
        }
        i += 1;
    }
    assert(a@ =~= b@);
    true
}

/// Whether `s` is a valid identifier for a field of `width` bytes.
fn check_name(s: &Vec<u8>, width: usize) -> (r: bool)
    ensures
        r == valid_name(s@, width as nat),
{
    if s.len() == 0 || s.len() >= width {
        return false;
    }
    let mut i: usize = 0;
    while i < s.len()
        invariant
            i <= s@.len(),
            forall|j: int| 0 <= j < i ==> s@[j] != 0u8,
        decreases s@.len() - i,
    {
        if s[i] == 0u8 {
            return false;
        }
        i += 1;
    }
    true
}

/// A device on the bus, as a driver sees it: its name and its firmware
/// compatible strings, most specific first.
#[derive(Debug)]
pub struct Client {
    name: Vec<u8>,
    compatible: Vec<Vec<u8>>,
}

impl Client {
    pub closed spec fn name_spec(&self) -> Seq<u8> {
        self.name@
    }

    pub closed spec fn compatible_spec(&self) -> Seq<Seq<u8>> {
        self.compatible@.map_values(|c: Vec<u8>| c@)
    }

    /// The name fits an I2C name field and each compatible string fits a
    /// firmware compatible field.
    pub open spec fn wf(&self) -> bool {
        &&& valid_name(self.name_spec(), I2C_NAME_SIZE as nat)
        &&& forall|k: int|
            0 <= k < self.compatible_spec().len() ==> valid_name(
                #[trigger] self.compatible_spec()[k],
                OF_COMPATIBLE_SIZE as nat,
            )
    }

    /// A device record; fails with `EINVAL` unless the name and every
    /// compatible string fit their fields.
    pub fn new(name: Vec<u8>, compatible: Vec<Vec<u8>>) -> (r: Result<Client, Error>)
        ensures
            r is Ok <==> (valid_name(name@, I2C_NAME_SIZE as nat) && forall|k: int|
                0 <= k < compatible@.len() ==> valid_name(
                    #[trigger] compatible@[k]@,
                    OF_COMPATIBLE_SIZE as nat,
                )),
            r matches Ok(c) ==> c.wf() && c.name_spec() == name@ && c.compatible_spec()
                == compatible@.map_values(|c: Vec<u8>| c@),
            r matches Err(e) ==> e.errno == -EINVAL,
    {
        if !check_name(&name, I2C_NAME_SIZE) {
            return Err(Error::from_code(EINVAL));
        }
        let mut k: usize = 0;
        while k < compatible.len()
            invariant
                k <= compatible@.len(),
                forall|j: int|
                    0 <= j < k ==> valid_name(#[trigger] compatible@[j]@, OF_COMPATIBLE_SIZE as nat),
            decreases compatible@.len() - k,
        {
            if !check_name(&compatible[k], OF_COMPATIBLE_SIZE) {
                return Err(Error::from_code(EINVAL));
            }
            k += 1;
        }
        let c = Client { name, compatible };
        assert forall|k: int| 0 <= k < c.compatible_spec().len() implies valid_name(
            #[trigger] c.compatible_spec()[k],
            OF_COMPATIBLE_SIZE as nat,
        ) by {
            assert(c.compatible_spec()[k] == compatible@[k]@);
        }
        Ok(c)
    }

    /// The device's name.
    pub fn name(&self) -> (r: &Vec<u8>)
        ensures
            r@ == self.name_spec(),
    {
        &self.name
    }

    /// The device's compatible strings, most specific first.
    pub fn compatible(&self) -> (r: &Vec<Vec<u8>>)
        ensures
            r@.map_values(|c: Vec<u8>| c@) == self.compatible_spec(),
    {
        &self.compatible
    }
}


/// What the client-data slot holds after a probe with outcome `outcome`.
pub open spec fn stored_after_probe<D>(outcome: Result<D, Error>) -> Option<D> {
    match outcome {
        Ok(d) => Some(d),
        Err(_) => None,
    }
}

/// The status a probe with outcome `outcome` reports to the bus.
pub open spec fn probe_status<D>(outcome: Result<D, Error>) -> i32 {
    match outcome {
        Ok(_) => 0,
        Err(e) => e.errno,
    }
}

/// The bus's record of one device: the device itself and its client-data slot,
/// which holds the driver's per-device state between probe and remove.
#[derive(Debug)]
pub struct ClientRecord<D> {
    client: Client,
    data: Option<D>,
}

impl<D> ClientRecord<D> {
    pub closed spec fn client_spec(&self) -> Client {
        self.client
    }

    pub closed spec fn data_spec(&self) -> Option<D> {
        self.data
    }

    /// A record for a device that no driver is bound to yet.
    pub fn new(client: Client) -> (r: ClientRecord<D>)
        ensures
            r.client_spec() == client,
            r.data_spec() is None,
    {
        ClientRecord { client, data: None }
    }

    /// The device.
    pub fn client(&self) -> (r: &Client)
        ensures
            *r == self.client_spec(),
    {
        &self.client
    }

    /// Whether the slot holds driver state, i.e. a probe succeeded and no
    /// remove has run since.
    pub fn is_bound(&self) -> (r: bool)
        ensures
            r == self.data_spec() is Some,
    {
        self.data.is_some()
    }

    /// The state held in the slot.
    pub fn clientdata(&self) -> (r: Option<&D>)
        ensures
            r is Some <==> self.data_spec() is Some,
            r is Some ==> *r.unwrap() == self.data_spec().unwrap(),
    {
        self.data.as_ref()
    }

    /// Finishes a probe: on success the state is handed to the slot for
    /// safekeeping and the status is zero; on failure nothing is stored and the
    /// status is the driver's errno, passed on as it is.
    pub fn store_state(&mut self, outcome: Result<D, Error>) -> (status: i32)
        requires
            old(self).data_spec() is None,
        ensures
            final(self).client_spec() == old(self).client_spec(),
            final(self).data_spec() == stored_after_probe(outcome),
            status == probe_status(outcome),
    {
        match outcome {
            Ok(d) => {
                self.data = Some(d);
                0
            },
            Err(e) => e.to_errno(),
        }
    }

    /// Takes the state back out of the slot, leaving it empty: the single
    /// point where ownership returns from the bus to the driver.
    pub fn release_state(&mut self) -> (d: D)
        requires
            old(self).data_spec() is Some,
        ensures
            d == old(self).data_spec().unwrap(),
            final(self).data_spec() is None,
            final(self).client_spec() == old(self).client_spec(),
    {
        self.data.take().unwrap()
    }
}

/// The state probe stores is exactly the state remove takes back, and after
/// that the slot is empty, so no second remove is admitted; a failed probe
/// leaves the slot empty, so no remove is admitted at all.
pub proof fn lemma_probe_remove_pairing<D>(outcome: Result<D, Error>)
    ensures
        outcome matches Ok(d) ==> stored_after_probe(outcome) == Some(d) && probe_status(outcome) == 0,
        outcome is Err ==> stored_after_probe(outcome) is None,
{
}

/// The bus's registration bookkeeping: the names of the registered drivers,
/// each at most once.
#[derive(Debug)]
pub struct Registry {
    names: Vec<Vec<u8>>,
}

impl Registry {
    pub closed spec fn names(&self) -> Seq<Seq<u8>> {
        self.names@.map_values(|v: Vec<u8>| v@)
    }

    pub closed spec fn wf(&self) -> bool {
        self.names().no_duplicates()
    }

    /// A bus with no driver registered.
    pub fn new() -> (r: Registry)
        ensures
            r.wf(),
            r.names() == Seq::<Seq<u8>>::empty(),
    {
        let r = Registry { names: Vec::new() };
        assert(r.names() =~= Seq::<Seq<u8>>::empty());
        r
    }

    /// Where `name` stands among the registered names.
    fn position(&self, name: &Vec<u8>) -> (r: Option<usize>)
        ensures
            r matches Some(k) ==> k < self.names().len() && self.names()[k as int] == name@,
            r is None ==> !self.names().contains(name@),
    {
        let mut k: usize = 0;
        while k < self.names.len()
            invariant
                k <= self.names@.len(),
                forall|j: int| 0 <= j < k ==> self.names()[j] != name@,
            decreases self.names@.len() - k,
        {
            if bytes_equal(&self.names[k], name) {
                return Some(k);
            }
            k += 1;
        }
        None
    }

    /// Whether a driver of this name is registered.
    pub fn is_registered(&self, name: &Vec<u8>) -> (r: bool)
        ensures
            r == self.names().contains(name@),
    {
        self.position(name).is_some()
    }

    /// The bus's register entry point: fails with `EBUSY` when the name is
    /// taken, and otherwise records it.
    pub fn register_driver(&mut self, name: &Vec<u8>) -> (status: i32)
        requires
            old(self).wf(),
        ensures
            final(self).wf(),
            old(self).names().contains(name@) ==> status == -EBUSY && final(self).names() == old(
                self,
            ).names(),
            !old(self).names().contains(name@) ==> status == 0 && final(self).names() == old(
                self,
            ).names().push(name@),
    {
        if self.is_registered(name) {
            return -EBUSY;
        }
        let ghost before = self.names();
        self.names.push(name.clone());
        assert(self.names() =~= before.push(name@));
        assert forall|i: int, j: int|
            0 <= i < j < self.names().len() implies self.names()[i] != self.names()[j] by {
            if j == self.names().len() - 1 {
                assert(before.contains(self.names()[i]) || self.names()[i] != name@);
            }
        }
        0
    }

    /// The bus's unregister entry point: forgets `name`.
    pub fn del_driver(&mut self, name: &Vec<u8>)
        requires
            old(self).wf(),
        ensures
            final(self).wf(),
            forall|o: Seq<u8>|
                final(self).names().contains(o) <==> (old(self).names().contains(o) && o
                    != name@),
    {
        let ghost before = self.names();
        match self.position(name) {
            None => {},
            Some(k) => {
                self.names.remove(k);
                assert(self.names() =~= before.remove(k as int));
                assert forall|o: Seq<u8>|
                    self.names().contains(o) <==> (before.contains(o) && o != name@) by {
                    if self.names().contains(o) {
                        let j = choose|j: int| 0 <= j < self.names().len() && self.names()[j] == o;
                        if j < k {
                            assert(before[j] == o);
                        } else {
                            assert(before[j + 1] == o);
                        }
                    }
                    if before.contains(o) && o != name@ {
                        let j = choose|j: int| 0 <= j < before.len() && before[j] == o;
                        assert(j != k);
                        if j < k {
                            assert(self.names()[j] == o);
                        } else {
                            assert(self.names()[j - 1] == o);
                        }
                    }
                }
            },
        }
    }
}


/// An I2C driver.
pub trait Driver {
    /// Per-device state, created by `probe` and kept in the device's
    /// client-data slot until `remove`.
    type Data;

    /// Information attached to each identifier the driver supports.
    type IdInfo;

    /// Called when a device that matches the driver is found; `id_info` is the
    /// information resolved for the identifier it matched, if any.
    fn probe(client: &Client, id_info: Option<&Self::IdInfo>) -> Result<Self::Data, Error>;

    /// Called when the device goes away, with the state `probe` returned.
    fn remove(data: &Self::Data) {
    }

    /// Releases what the state owns besides itself, after `remove`.
    fn device_remove(data: &Self::Data) {
    }
}

/// The tables are well formed and each is of the kind its matcher reads.
pub open spec fn tables_ok<U>(i2c_table: Option<IdTable<U>>, of_table: Option<IdTable<U>>) -> bool {
    &&& i2c_table matches Some(t) ==> t.wf() && t.kind_spec() == IdKind::I2c
    &&& of_table matches Some(t) ==> t.wf() && t.kind_spec() == IdKind::Of
}

/// The information an optional table gives for the entry `m` selects.
pub open spec fn info_for<U>(table: Option<IdTable<U>>, m: Option<int>) -> Option<U> {
    match m {
        Some(i) => table.unwrap().infos()[i],
        None => None,
    }
}

/// What the exact-name table resolves for `c`.
pub open spec fn i2c_info<U>(table: Option<IdTable<U>>, c: Client) -> Option<U> {
    match table {
        Some(t) => info_for(table, first_match(t.ids(), c.name_spec())),
        None => None,
    }
}

/// What the firmware table resolves for `c`.
pub open spec fn of_info<U>(table: Option<IdTable<U>>, c: Client) -> Option<U> {
    match table {
        Some(t) => info_for(table, best_compatible(t.ids(), c.compatible_spec())),
        None => None,
    }
}

/// The resolution order: the exact-name table first, the firmware table when
/// that gives nothing.
pub open spec fn resolved_info<U>(
    i2c_table: Option<IdTable<U>>,
    of_table: Option<IdTable<U>>,
    c: Client,
) -> Option<U> {
    if i2c_info(i2c_table, c) is Some {
        i2c_info(i2c_table, c)
    } else {
        of_info(of_table, c)
    }
}

/// A registered I2C driver: the registration handle that binds driver `T` to
/// the bus. It exists only for a successful registration.
pub struct Adapter<T: Driver> {
    name: Vec<u8>,
    i2c_table: Option<IdTable<T::IdInfo>>,
    of_table: Option<IdTable<T::IdInfo>>,
}

impl<T: Driver> Adapter<T> {
    pub closed spec fn name_spec(&self) -> Seq<u8> {
        self.name@
    }

    pub closed spec fn i2c_table_spec(&self) -> Option<IdTable<T::IdInfo>> {
        self.i2c_table
    }

    pub closed spec fn of_table_spec(&self) -> Option<IdTable<T::IdInfo>> {
        self.of_table
    }

    pub open spec fn wf(&self) -> bool {
        tables_ok(self.i2c_table_spec(), self.of_table_spec())
    }

    /// What resolution gives for device `c` under this driver's tables.
    pub open spec fn id_info_spec(&self, c: Client) -> Option<T::IdInfo> {
        resolved_info(self.i2c_table_spec(), self.of_table_spec(), c)
    }

    /// Registers driver `T` under `name` with the given tables. Fails, leaving
    /// the bus as it was, exactly when a driver of that name is registered.
    pub fn register(
        reg: &mut Registry,
        name: Vec<u8>,
        i2c_table: Option<IdTable<T::IdInfo>>,
        of_table: Option<IdTable<T::IdInfo>>,
    ) -> (r: Result<Adapter<T>, Error>)
        requires
            old(reg).wf(),
            tables_ok(i2c_table, of_table),
        ensures
            final(reg).wf(),
            r is Ok <==> !old(reg).names().contains(name@),
            r matches Ok(a) ==> {
                &&& a.wf()
                &&& a.name_spec() == name@
                &&& a.i2c_table_spec() == i2c_table
                &&& a.of_table_spec() == of_table
                &&& final(reg).names() == old(reg).names().push(name@)
            },
            r matches Err(e) ==> e.errno == -EBUSY && final(reg).names() == old(reg).names(),
    {
        let status = reg.register_driver(&name);
        match Error::check_status(status) {
            Ok(()) => Ok(Adapter { name, i2c_table, of_table }),
            Err(e) => Err(e),
        }
    }

    /// Unregisters the driver; the handle is consumed, so this happens once.
    pub fn unregister(self, reg: &mut Registry)
        requires
            old(reg).wf(),
        ensures
            final(reg).wf(),
            forall|o: Seq<u8>|
                final(reg).names().contains(o) <==> (old(reg).names().contains(o) && o
                    != self.name_spec()),
    {
        reg.del_driver(&self.name);
    }

    /// Side information from the exact-name table.
    fn get_i2c_id_info(&self, client: &Client) -> (r: Option<&T::IdInfo>)
        requires
            self.wf(),
            client.wf(),
        ensures
            r is Some <==> i2c_info(self.i2c_table_spec(), *client) is Some,
            r is Some ==> *r.unwrap() == i2c_info(self.i2c_table_spec(), *client).unwrap(),
    {
        let table = match &self.i2c_table {
            Some(t) => t,
            None => return None,
        };
        let m = table.match_name(client.name());
        proof {
            lemma_first_match_is(table.ids(), client.name_spec(), m);
        }
        match m {
            None => None,
            Some(i) => {
                proof {
                    crate::id_table::lemma_resolves_supplied_info(table, i as int);
                }
                table.info_at(i)
            },
        }
    }

    /// Side information from the firmware table.
    fn get_of_id_info(&self, client: &Client) -> (r: Option<&T::IdInfo>)
        requires
            self.wf(),
            client.wf(),
        ensures
            r is Some <==> of_info(self.of_table_spec(), *client) is Some,
            r is Some ==> *r.unwrap() == of_info(self.of_table_spec(), *client).unwrap(),
    {
        let table = match &self.of_table {
            Some(t) => t,
            None => return None,
        };
        let compatible = client.compatible();
        assert forall|k: int| 0 <= k < compatible@.len() implies valid_name(
            #[trigger] compatible@[k]@,
            name_width(table.kind_spec()),
        ) by {
            assert(client.compatible_spec()[k] == compatible@[k]@);
        }
        let m = table.match_compatible(compatible);
        proof {
            assert(compatible@.map_values(|c: Vec<u8>| c@) == client.compatible_spec());
            lemma_best_compatible_is(table.ids(), client.compatible_spec(), m);
        }
        match m {
            None => None,
            Some(i) => {
                proof {
                    crate::id_table::lemma_resolves_supplied_info(table, i as int);
                }
                table.info_at(i)
            },
        }
    }

    /// Resolves the side information for `client`: the exact-name table first,
    /// then the firmware table.
    pub fn get_id_info(&self, client: &Client) -> (r: Option<&T::IdInfo>)
        requires
            self.wf(),
            client.wf(),
        ensures
            r is Some <==> self.id_info_spec(*client) is Some,
            r is Some ==> *r.unwrap() == self.id_info_spec(*client).unwrap(),
    {
        let id_info = self.get_i2c_id_info(client);
        if id_info.is_some() {
            return id_info;
        }
        self.get_of_id_info(client)
    }

    /// The probe callback the bus invokes for a matching device: resolves the
    /// side information, calls the driver's `probe`, and stores the state it
    /// returns in the device's slot. The status is zero on success and the
    /// driver's errno otherwise; whatever `probe` returned, the slot and the
    /// status reflect it.
    pub fn probe_callback(&self, rec: &mut ClientRecord<T::Data>) -> (status: i32)
        requires
            self.wf(),
            old(rec).client_spec().wf(),
            old(rec).data_spec() is None,
        ensures
            final(rec).client_spec() == old(rec).client_spec(),
            exists|outcome: Result<T::Data, Error>|
                final(rec).data_spec() == stored_after_probe(outcome) && status == probe_status(
                    outcome,
                ),
    {
        let info = self.get_id_info(rec.client());
        let outcome = T::probe(rec.client(), info);
        let ghost o = outcome;
        let status = rec.store_state(outcome);
        assert(rec.data_spec() == stored_after_probe(o) && status == probe_status(o));
        status
    }

    /// The remove callback the bus invokes for a bound device: takes the state
    /// out of the slot, calls the driver's `remove` and teardown with it, and
    /// releases it.
    pub fn remove_callback(&self, rec: &mut ClientRecord<T::Data>)
        requires
            old(rec).data_spec() is Some,
        ensures
            final(rec).client_spec() == old(rec).client_spec(),
            final(rec).data_spec() is None,
    {
        let data = rec.release_state();
        T::remove(&data);
        T::device_remove(&data);
    }
}

/// When the exact-name table resolves information for a device, that is the
/// result, whatever the firmware table holds: it is never consulted.
pub proof fn lemma_exact_name_first<U>(
    i2c_table: Option<IdTable<U>>,
    of_table: Option<IdTable<U>>,
    c: Client,
)
    requires
        i2c_info(i2c_table, c) is Some,
    ensures
        forall|other: Option<IdTable<U>>|
            resolved_info(i2c_table, other, c) == i2c_info(i2c_table, c),
        resolved_info(i2c_table, of_table, c) == i2c_info(i2c_table, c),
{
}

/// When the exact-name table resolves nothing for a device (no table, no
/// match, or an entry without information), the firmware table decides.
pub proof fn lemma_firmware_fallback<U>(
    i2c_table: Option<IdTable<U>>,
    of_table: Option<IdTable<U>>,
    c: Client,
)
    requires
        i2c_info(i2c_table, c) is None,
    ensures
        resolved_info(i2c_table, of_table, c) == of_info(of_table, c),
{
}

/// Registration is exclusive by name: once `name` has been registered, a
/// second registration under it is refused, and a refused registration
/// changes nothing.
pub proof fn lemma_second_registration_refused(names: Seq<Seq<u8>>, name: Seq<u8>)
    ensures
        names.push(name).contains(name),
{
    assert(names.push(name)[names.len() as int] == name);
}

} // verus!
