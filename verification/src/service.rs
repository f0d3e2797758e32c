use crate::interop::buffer::{
    c_string, is_pointer_table, packed_strings, stored, string_array_len, table_len, CBuffer,
    OutOfSpace,
};
use crate::interop::convert::ToC;
use crate::interop::iterator::{Iterator, IteratorView};
use crate::interop::status::{NssStatus, Response};
use vstd::endian::{endianness, Endian};
use vstd::prelude::*;
use vstd::string::StringSliceAdditionalSpecFns;
use vstd::utf8::valid_utf8;

verus! {

/// One entry of the service database.
pub struct Service {
    pub name: String,
    pub aliases: Vec<String>,
    pub port: u16,
    pub proto: String,
}

/// What a [`Service`] stands for.
pub struct ServiceView {
    pub name: Seq<char>,
    pub aliases: Seq<Seq<char>>,
    pub port: u16,
    pub proto: Seq<char>,
}

impl View for Service {
    type V = ServiceView;

    open spec fn view(&self) -> ServiceView {
        ServiceView {
            name: self.name@,
            aliases: self.aliases.deep_view(),
            port: self.port,
            proto: self.proto@,
        }
    }
}

impl Clone for Service {
    fn clone(&self) -> (copy: Self)
        ensures
            copy@ == self@,
    {
        let aliases = self.aliases.clone();
        Service { name: self.name.clone(), aliases, port: self.port, proto: self.proto.clone() }
    }
}

/// The lookups that a service database provides. Nothing is assumed of
/// what they answer.
pub trait ServiceHooks {
    /// Every entry of the database, in the order of enumeration.
    fn get_all_entries() -> Response<Vec<Service>>;

    /// The entry with the given name, for the protocol if one is given.
    fn get_service_by_name(name: &str, proto: Option<&str>) -> Response<Service>;

    /// The entry with the given port, for the protocol if one is given.
    fn get_service_by_port(port: u16, proto: Option<&str>) -> Response<Service>;
}

/// The head structure of a service entry as the host reads it, with each
/// pointer held as the address it points to.
#[derive(Clone, Copy, Debug, PartialEq, Eq, Structural)]
pub struct CService {
    pub s_name: usize,
    pub s_aliases: usize,
    pub s_port: libc::c_int,
    pub s_proto: usize,
}

/// `value` with its two bytes exchanged.
pub open spec fn swapped(value: u16) -> u16 {
    ((value % 256) * 256 + value / 256) as u16
}

/// `value` taken from this machine's byte order to the network's, which is
/// big-endian: unchanged on a big-endian machine, with its bytes exchanged
/// on a little-endian one. The way back is the same change.
pub open spec fn to_network(value: u16) -> u16 {
    match endianness() {
        Endian::Big => value,
        Endian::Little => swapped(value),
    }
}

/// [`u16::to_be`] leaves the value as it is on a big-endian machine and
/// exchanges its two bytes on a little-endian one.
pub assume_specification[ u16::to_be ](value: u16) -> (converted: u16)
    ensures
        converted == to_network(value),
;

/// [`u16::from_be`] leaves the value as it is on a big-endian machine and
/// exchanges its two bytes on a little-endian one.
pub assume_specification[ u16::from_be ](value: u16) -> (converted: u16)
    ensures
        converted == to_network(value),
;

/// A value that went to the network's byte order and came back is the value
/// it was.
pub proof fn lemma_network_round_trip(value: u16)
    ensures
        to_network(to_network(value)) == value,
{
}

/// [`core::str::Utf8Error`], the reason why bytes are no UTF-8; nothing is
/// read from it.
#[verifier::external_type_specification]
#[verifier::external_body]
pub struct ExUtf8Error(core::str::Utf8Error);

/// [`core::str::from_utf8`] accepts exactly the byte strings that are valid
/// UTF-8, and the string it returns has those bytes.
pub assume_specification[ core::str::from_utf8 ](bytes: &[u8]) -> (r: Result<
    &str,
    core::str::Utf8Error,
>)
    ensures
        r is Ok <==> valid_utf8(bytes@),
        r is Ok ==> r->Ok_0.spec_bytes() == bytes@,
;

impl ServiceView {
    /// The name as C reads it.
    pub open spec fn c_name(self) -> Seq<u8> {
        c_string(self.name)
    }

    /// The protocol as C reads it.
    pub open spec fn c_proto(self) -> Seq<u8> {
        c_string(self.proto)
    }

    /// The bytes that the entry's strings take in the buffer: the name, the
    /// array of aliases, the protocol.
    pub open spec fn c_len(self) -> nat {
        self.c_name().len() + string_array_len(self.aliases) + self.c_proto().len()
    }

    /// The bytes that an attempt to write the entry into `free` bytes has
    /// used when it ran out of space: those of the fields that come before
    /// the first that does not fit.
    pub open spec fn abandoned_len(self, free: int) -> nat {
        if self.c_name().len() > free {
            0
        } else if self.c_name().len() + string_array_len(self.aliases) > free {
            self.c_name().len()
        } else {
            self.c_name().len() + string_array_len(self.aliases)
        }
    }

    /// The table of alias addresses as it stands in `bytes`, for an entry
    /// written from offset `at` on.
    pub open spec fn table_in(self, at: int, bytes: Seq<u8>) -> Seq<u8> {
        bytes.subrange(
            at + self.c_name().len(),
            at + self.c_name().len() + table_len(self.aliases.len()),
        )
    }

    /// Whether the aliases are in `bytes` as an array, for an entry written
    /// from offset `at` on in a region that starts at the address `base`.
    pub open spec fn aliases_in(self, base: int, at: int, bytes: Seq<u8>) -> bool {
        is_pointer_table(
            self.table_in(at, bytes),
            base + at + self.c_name().len() + table_len(self.aliases.len()),
            self.aliases,
        )
    }
}

impl ToC<CService> for Service {
    open spec fn c_len(&self) -> nat {
        self@.c_len()
    }

    open spec fn laid_out(
        &self,
        base: int,
        at: int,
        before: Seq<u8>,
        head: CService,
        after: Seq<u8>,
    ) -> bool {
        let entry = self@;
        &&& head.s_name == base + at
        &&& head.s_aliases == head.s_name + entry.c_name().len()
        &&& head.s_proto == head.s_aliases + string_array_len(entry.aliases)
        &&& head.s_port == to_network(entry.port)
        &&& entry.aliases_in(base, at, after)
        &&& after == stored(
            before,
            at,
            entry.c_name() + entry.table_in(at, after) + packed_strings(entry.aliases)
                + entry.c_proto(),
        )
    }

    open spec fn abandoned(&self, base: int, at: int, before: Seq<u8>, after: Seq<u8>) -> bool {
        let entry = self@;
        if at + entry.c_name().len() > before.len() {
            after == before
        } else if at + entry.c_name().len() + string_array_len(entry.aliases) > before.len() {
            after == stored(before, at, entry.c_name())
        } else {
            &&& entry.aliases_in(base, at, after)
            &&& after == stored(
                before,
                at,
                entry.c_name() + entry.table_in(at, after) + packed_strings(entry.aliases),
            )
        }
    }

    /// Writes the name, the aliases and the protocol, in this order, and
    /// gives the port in network byte order. A field that does not fit ends
    /// the attempt; what was written before it stays.
    fn to_c(&self, buffer: &mut CBuffer<'_>) -> (r: Result<CService, OutOfSpace>)
        ensures
            r is Err ==> final(buffer)@.cursor == old(buffer)@.cursor + self@.abandoned_len(
                old(buffer)@.remaining(),
            ),
    {
        let ghost before = buffer@;
        let s_name = buffer.write_string(self.name.as_str())?;
        let ghost named = buffer@;
        let aliases = self.aliases.as_slice();
        let s_aliases = buffer.write_string_array(aliases)?;
        let ghost listed = buffer@;
        let s_port = self.port.to_be() as libc::c_int;
        proof {
            let entry = self@;
            let table = listed.bytes.subrange(
                named.cursor,
                named.cursor + table_len(entry.aliases.len()),
            );
            assert(listed.bytes =~= stored(
                before.bytes,
                before.cursor,
                entry.c_name() + table + packed_strings(entry.aliases),
            ));
        }
        let s_proto = buffer.write_string(self.proto.as_str())?;
        proof {
            let entry = self@;
            let table = listed.bytes.subrange(
                named.cursor,
                named.cursor + table_len(entry.aliases.len()),
            );
            assert(entry.table_in(before.cursor, buffer@.bytes) =~= table);
            assert(buffer@.bytes =~= stored(
                before.bytes,
                before.cursor,
                entry.c_name() + table + packed_strings(entry.aliases) + entry.c_proto(),
            ));
        }
        Ok(CService { s_name, s_aliases, s_port, s_proto })
    }
}

/// Whether `code` and `after` are what the start of an enumeration gives
/// when the database answered `response` and the iterator stood at `before`.
pub open spec fn begins(
    before: IteratorView<Service>,
    response: Response<Vec<Service>>,
    code: int,
    after: IteratorView<Service>,
) -> bool {
    match response {
        Response::Success(entries) => {
            &&& code == NssStatus::Success.spec_code()
            &&& after == IteratorView::opened(entries@)
        },
        _ => {
            &&& code == response.spec_status().spec_code()
            &&& after == before
        },
    }
}

/// Whether `reply` and `after` are what the host gets for `response` in a
/// region that starts at the address `base` and held `before`: the code of
/// the outcome, and the head structure exactly when the outcome is success.
pub open spec fn answers(
    response: Response<Service>,
    base: int,
    before: Seq<u8>,
    reply: (libc::c_int, Option<CService>),
    after: Seq<u8>,
) -> bool {
    &&& reply.0 == response.outcome::<CService>(before.len()).spec_code()
    &&& response.delivers(base, before, reply.1, after)
}

/// Where the iterator stands after it served into a region of `capacity`
/// bytes from `before`: one step on, unless the entry did not fit, which
/// leaves it where it was.
pub open spec fn after_serving(before: IteratorView<Service>, capacity: nat) -> IteratorView<
    Service,
> {
    if before.served().outcome::<CService>(capacity) == NssStatus::TryAgain {
        before
    } else {
        before.advance()
    }
}

/// Reads the protocol argument of a lookup: absent, text, or bytes that are
/// no text, for which the lookup finds nothing.
pub fn convert_proto<'a>(proto: Option<&'a [u8]>) -> (r: Response<Option<&'a str>>)
    ensures
        match proto {
            None => r == Response::Success(None::<&str>),
            Some(bytes) => if valid_utf8(bytes@) {
                &&& r is Success
                &&& r->Success_0 is Some
                &&& r->Success_0->0.spec_bytes() == bytes@
            } else {
                r == Response::<Option<&str>>::NotFound
            },
        },
{
    match proto {
        None => Response::Success(None),
        Some(bytes) => match core::str::from_utf8(bytes) {
            Ok(text) => Response::Success(Some(text)),
            Err(_) => Response::NotFound,
        },
    }
}

/// Reads the port argument of a lookup, which the host gives in network
/// byte order in the low 16 bits.
pub fn convert_port(port: libc::c_int) -> (r: u16)
    ensures
        r == to_network(port as u16),
{
    u16::from_be(#[verifier::truncate] (port as u16))
}

/// Starts an enumeration with what the database answered: its entries
/// replace what the iterator held; any other answer leaves the iterator as
/// it is and is reported.
pub fn begin_enumeration(iter: &mut Iterator<Service>, response: Response<Vec<Service>>) -> (code:
    libc::c_int)
    ensures
        begins(old(iter)@, response, code as int, final(iter)@),
{
    let status = match response {
        Response::Success(entries) => iter.open(entries),
        other => other.to_status(),
    };
    status.code()
}

/// Hands `response` to the host: lays a record out in `region`, which the
/// host placed at the address `base`, and returns the code of the outcome
/// and, on success, the head structure.
pub fn reply(response: Response<Service>, region: &mut [u8], base: usize) -> (r: (
    libc::c_int,
    Option<CService>,
))
    requires
        base + old(region)@.len() <= usize::MAX,
    ensures
        answers(response, base as int, old(region)@, r, final(region)@),
{
    let (status, head) = response.to_c(region, base);
    (status.code(), head)
}

/// Begins an enumeration: asks the database for all entries and opens the
/// iterator with them.
pub fn setservent<H: ServiceHooks>(iter: &mut Iterator<Service>) -> (code: libc::c_int)
    ensures
        exists|response: Response<Vec<Service>>| #[trigger]
            begins(old(iter)@, response, code as int, final(iter)@),
{
    begin_enumeration(iter, H::get_all_entries())
}

/// Ends an enumeration.
pub fn endservent(iter: &mut Iterator<Service>) -> (code: libc::c_int)
    ensures
        code == NssStatus::Success.spec_code(),
        final(iter)@ == IteratorView::<Service>::closed(),
{
    iter.close().code()
}

/// Serves the next entry of the enumeration into `region`, which the host
/// placed at the address `base`. An entry that does not fit is not used up:
/// the iterator stays where it was, so that the next call serves it again.
pub fn getservent_r(iter: &mut Iterator<Service>, region: &mut [u8], base: usize) -> (r: (
    libc::c_int,
    Option<CService>,
))
    requires
        base + old(region)@.len() <= usize::MAX,
    ensures
        old(iter)@.wf(),
        answers(old(iter)@.served(), base as int, old(region)@, r, final(region)@),
        final(iter)@ == after_serving(old(iter)@, old(region)@.len()),
{
    let response = iter.next();
    let (status, head) = response.to_c(region, base);
    if status == NssStatus::TryAgain {
        iter.rewind_one_step();
    }
    (status.code(), head)
}

/// Looks a service up by name. A name or a protocol that is no text finds
/// nothing, and the database is not asked.
pub fn getservbyname_r<H: ServiceHooks>(
    name: &[u8],
    proto: Option<&[u8]>,
    region: &mut [u8],
    base: usize,
) -> (r: (libc::c_int, Option<CService>))
    requires
        base + old(region)@.len() <= usize::MAX,
    ensures
        if valid_utf8(name@) && (proto is Some ==> valid_utf8(proto->0@)) {
            exists|response: Response<Service>| #[trigger]
                answers(response, base as int, old(region)@, r, final(region)@)
        } else {
            answers(Response::NotFound, base as int, old(region)@, r, final(region)@)
        },
{
    let proto = match convert_proto(proto) {
        Response::Success(proto) => proto,
        _ => {
            return (NssStatus::NotFound.code(), None);
        },
    };
    let response = match core::str::from_utf8(name) {
        Ok(name) => H::get_service_by_name(name, proto),
        Err(_) => Response::NotFound,
    };
    reply(response, region, base)
}

/// Looks a service up by port. A protocol that is no text finds nothing,
/// and the database is not asked.
pub fn getservbyport_r<H: ServiceHooks>(
    port: libc::c_int,
    proto: Option<&[u8]>,
    region: &mut [u8],
    base: usize,
) -> (r: (libc::c_int, Option<CService>))
    requires
        base + old(region)@.len() <= usize::MAX,
    ensures
        if proto is Some ==> valid_utf8(proto->0@) {
            exists|response: Response<Service>| #[trigger]
                answers(response, base as int, old(region)@, r, final(region)@)
        } else {
            answers(Response::NotFound, base as int, old(region)@, r, final(region)@)
        },
{
    let response = match convert_proto(proto) {
        Response::Success(proto) => H::get_service_by_port(convert_port(port), proto),
        _ => Response::NotFound,
    };
    reply(response, region, base)
}

/// The port of a head structure that was laid out is the entry's port in
/// the network's byte order, a value of 16 bits, and reading it as a lookup
/// reads its port argument gives the entry's port back.
pub proof fn lemma_port_reads_back(
    entry: Service,
    base: int,
    at: int,
    before: Seq<u8>,
    head: CService,
    after: Seq<u8>,
)
    requires
        entry.laid_out(base, at, before, head, after),
    ensures
        0 <= head.s_port <= 65535,
        head.s_port == to_network(entry@.port),
        to_network(head.s_port as u16) == entry@.port,
{
}

/// An entry that needs one byte more than the region holds is answered with
/// `TryAgain` and is not used up: the iterator stays where it was, and a call
/// with a region that is large enough serves that same entry.
pub proof fn lemma_short_region_keeps_entry(
    state: IteratorView<Service>,
    capacity: nat,
    larger: nat,
)
    requires
        state.wf(),
        state.current() is Some,
        state.current()->0@.c_len() == capacity + 1,
        larger >= capacity + 1,
    ensures
        state.served().outcome::<CService>(capacity) == NssStatus::TryAgain,
        after_serving(state, capacity) == state,
        after_serving(state, capacity).served().outcome::<CService>(larger) == NssStatus::Success,
        after_serving(after_serving(state, capacity), larger) == state.advance(),
{
}

} // verus!
