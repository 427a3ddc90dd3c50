//! Finding devices on the network: which record is the one that is wanted, at
//! which address to reach it, and what to say when it does not appear.

use crate::attestation::extensions::same_bytes;
use crate::driver::error::{DriverError, TransportFault};
use crate::driver::names::{
    ascii_lower, in_order, insert_name, lemma_in_order_distinct, names_match, names_view,
    same_name,
};
use crate::text::{
    decimal, digit_char, law_padded_numbers, lower_hex, padded_hex, push_char, push_decimal, push_lower_hex, push_padded_hex,
    push_text,
};
use vstd::prelude::*;
use vstd::string::StrSliceExecFns;
use vstd::utf8::{encode_utf8, is_ascii_chars_encode_utf8};

verus! {

/// How often an operational record is looked for before giving up.
pub const RESOLVE_POLL_ATTEMPTS: u32 = 300;

/// How often an operational record is looked for after a device was set up over
/// Bluetooth: it has to join its network first.
pub const BLE_RESOLVE_POLL_ATTEMPTS: u32 = 600;

/// How often a commissionable record is looked for before giving up.
pub const COMMISSIONABLE_POLL_ATTEMPTS: u32 = 50;

/// How long, in milliseconds, to wait between two looks.
pub const RESOLVE_POLL_INTERVAL_MS: u64 = 100;

/// How many names a search keeps.
pub const SEEN_TRACK_CAP: usize = 64;

/// How many names a message quotes.
pub const SEEN_SAMPLE_MAX: usize = 5;

/// How many characters of a name a message quotes.
pub const SEEN_NAME_MAX: usize = 48;

/// An address of the internet protocol, as a number.
#[derive(Debug, Clone, Copy, PartialEq, Eq, Structural)]
pub enum IpAddress {
    /// Of version 4.
    V4(u32),
    /// Of version 6.
    V6(u128),
}

/// Whether an address is of version 4.
pub open spec fn is_v4(address: IpAddress) -> bool {
    address is V4
}

/// What the first 16 bits of an address of version 6 count.
pub const FIRST_SEGMENT: u128 = 0x1_0000_0000_0000_0000_0000_0000_0000;

/// Whether an address is good on its link only: of version 6, with the first ten
/// bits `1111111010`, which is with first 16 bits from `FE80` to `FEBF`.
pub open spec fn is_link_local(address: IpAddress) -> bool {
    match address {
        IpAddress::V4(_) => false,
        IpAddress::V6(v) => 0xFE80 <= v / FIRST_SEGMENT <= 0xFEBF,
    }
}

/// The first address for which a condition holds.
pub open spec fn first_where(addresses: Seq<IpAddress>, wanted: spec_fn(IpAddress) -> bool) -> Option<
    IpAddress,
>
    decreases addresses.len(),
{
    if addresses.len() == 0 {
        None
    } else if wanted(addresses[0]) {
        Some(addresses[0])
    } else {
        first_where(addresses.skip(1), wanted)
    }
}

/// The address to reach a device at: the first of version 4, else the first that
/// is good beyond its link, else the first.
pub open spec fn preferred(addresses: Seq<IpAddress>) -> Option<IpAddress> {
    match first_where(addresses, |a: IpAddress| is_v4(a)) {
        Some(a) => Some(a),
        None => match first_where(addresses, |a: IpAddress| !is_link_local(a)) {
            Some(a) => Some(a),
            None => first_where(addresses, |a: IpAddress| true),
        },
    }
}

fn link_local(address: IpAddress) -> (local: bool)
    ensures
        local == is_link_local(address),
{
    match address {
        IpAddress::V4(_) => false,
        IpAddress::V6(v) => 0xFE80 <= v / FIRST_SEGMENT && v / FIRST_SEGMENT <= 0xFEBF,
    }
}

/// The address to reach a device at; none if there are no addresses.
pub fn preferred_address(addresses: &[IpAddress]) -> (address: Option<IpAddress>)
    ensures
        address == preferred(addresses@),
{
    let ghost v4 = |a: IpAddress| is_v4(a);
    let ghost routable = |a: IpAddress| !is_link_local(a);
    let mut fallback: Option<IpAddress> = None;
    let mut i: usize = 0;
    proof {
        assert(addresses@.skip(0) =~= addresses@);
    }
    while i < addresses.len()
        invariant
            i <= addresses@.len(),
            v4 == (|a: IpAddress| is_v4(a)),
            routable == (|a: IpAddress| !is_link_local(a)),
            first_where(addresses@, v4) == first_where(addresses@.skip(i as int), v4),
            match fallback {
                Some(a) => first_where(addresses@, routable) == Some(a),
                None => first_where(addresses@, routable) == first_where(
                    addresses@.skip(i as int),
                    routable,
                ),
            },
        decreases addresses@.len() - i,
    {
        proof {
            assert(addresses@.skip(i as int)[0] == addresses@[i as int]);
            assert(addresses@.skip(i as int).skip(1) =~= addresses@.skip(i + 1));
        }
        let address = addresses[i];
        if let IpAddress::V4(_) = address {
            return Some(address);
        }
        if fallback.is_none() && !link_local(address) {
            fallback = Some(address);
        }
        i = i + 1;
    }
    proof {
        assert(addresses@.skip(i as int).len() == 0);
    }
    if fallback.is_some() {
        return fallback;
    }
    if addresses.len() == 0 {
        None
    } else {
        Some(addresses[0])
    }
}

/// A number in big-endian order.
pub open spec fn be_value(bytes: Seq<u8>) -> nat
    decreases bytes.len(),
{
    if bytes.len() == 0 {
        0
    } else {
        256 * be_value(bytes.drop_last()) + bytes.last() as nat
    }
}

/// The name of the operational record of a node: the compressed fabric and the
/// node, in sixteen upper-case digits each.
pub open spec fn instance_name(compressed_fabric_id: Seq<u8>, node_id: u64) -> Seq<char> {
    padded_hex(be_value(compressed_fabric_id), 16) + "-"@ + padded_hex(node_id as nat, 16)
}

/// The name of the operational record of a node.
pub fn operational_instance_name(compressed_fabric_id: [u8; 8], node_id: u64) -> (name: String)
    ensures
        name@ == instance_name(compressed_fabric_id@, node_id),
{
    let mut fabric: u64 = 0;
    let mut i: usize = 0;
    let ghost bytes = compressed_fabric_id@;
    while i < 8
        invariant
            i <= 8,
            bytes == compressed_fabric_id@,
            bytes.len() == 8,
            fabric == be_value(bytes.take(i as int)),
            i == 0 ==> fabric == 0,
            i == 1 ==> fabric < 0x100,
            i == 2 ==> fabric < 0x1_0000,
            i == 3 ==> fabric < 0x100_0000,
            i == 4 ==> fabric < 0x1_0000_0000,
            i == 5 ==> fabric < 0x100_0000_0000,
            i == 6 ==> fabric < 0x1_0000_0000_0000,
            i == 7 ==> fabric < 0x100_0000_0000_0000,
        decreases 8 - i,
    {
        proof {
            assert(bytes.take(i + 1).drop_last() =~= bytes.take(i as int));
        }
        fabric = fabric * 256 + compressed_fabric_id[i] as u64;
        i = i + 1;
    }
    proof {
        assert(bytes.take(8) =~= bytes);
    }
    let mut name = String::new();
    push_padded_hex(&mut name, fabric, 16);
    push_text(&mut name, "-");
    push_padded_hex(&mut name, node_id, 16);
    proof {
        assert(name@ =~= instance_name(compressed_fabric_id@, node_id));
    }
    name
}

/// How a message quotes a name.
pub open spec fn quoted(name: Seq<char>) -> Seq<char> {
    if name.len() > SEEN_NAME_MAX {
        name.take(SEEN_NAME_MAX as int).push('…')
    } else {
        name
    }
}

/// Names with commas between them.
pub open spec fn listed(names: Seq<Seq<char>>) -> Seq<char>
    decreases names.len(),
{
    if names.len() == 0 {
        Seq::empty()
    } else if names.len() == 1 {
        quoted(names[0])
    } else {
        listed(names.drop_last()) + ", "@ + quoted(names.last())
    }
}

/// What a failed search for a node says, given the names that it saw.
pub open spec fn failure_text(target: Seq<char>, seen: Seq<Seq<char>>) -> Seq<char> {
    "operational node "@ + target + " not found via mDNS"@ + if seen.len() == 0 {
        " (saw 0 operational mDNS records — either no _matter._tcp response reached this host, or responses arrived and were discarded before being counted; RUST_LOG=matter_transport::mdns=debug distinguishes the two)"@
    } else {
        " (saw "@ + decimal(seen.len()) + " operational mDNS record(s), none matching: "@
            + if seen.len() > SEEN_SAMPLE_MAX {
            listed(seen.take(SEEN_SAMPLE_MAX as int)) + ", … "@ + decimal(
                (seen.len() - SEEN_SAMPLE_MAX) as nat,
            ) + " more)"@
        } else {
            listed(seen) + ")"@
        }
    }
}

/// The characters of some texts.
pub open spec fn texts_view(texts: Seq<&str>) -> Seq<Seq<char>> {
    texts.map_values(|text: &str| text@)
}

fn push_quoted(text: &mut String, name: &str)
    ensures
        final(text)@ == old(text)@ + quoted(name@),
{
    if name.unicode_len() > SEEN_NAME_MAX {
        let mut i: usize = 0;
        proof {
            assert(text@ + name@.take(0) =~= text@);
        }
        while i < SEEN_NAME_MAX
            invariant
                i <= SEEN_NAME_MAX < name@.len(),
                text@ == old(text)@ + name@.take(i as int),
            decreases SEEN_NAME_MAX - i,
        {
            push_char(text, name.get_char(i));
            proof {
                assert(text@ =~= old(text)@ + name@.take(i + 1));
            }
            i = i + 1;
        }
        push_char(text, '…');
        proof {
            assert(text@ =~= old(text)@ + quoted(name@));
        }
    } else {
        push_text(text, name);
    }
}

/// Says that a node was not found, and quotes some of the names that were seen
/// instead. The text stays short however many there were and however long they
/// are.
pub fn discovery_failure_message(target: &str, seen: &[&str]) -> (text: String)
    ensures
        text@ == failure_text(target@, texts_view(seen@)),
{
    let ghost names = texts_view(seen@);
    let mut text = String::new();
    push_text(&mut text, "operational node ");
    push_text(&mut text, target);
    push_text(&mut text, " not found via mDNS");
    if seen.len() == 0 {
        push_text(
            &mut text,
            " (saw 0 operational mDNS records — either no _matter._tcp response reached this host, or responses arrived and were discarded before being counted; RUST_LOG=matter_transport::mdns=debug distinguishes the two)",
        );
        proof {
            assert(text@ =~= failure_text(target@, names));
        }
        return text;
    }
    push_text(&mut text, " (saw ");
    push_decimal(&mut text, seen.len() as u64);
    push_text(&mut text, " operational mDNS record(s), none matching: ");
    let ghost head = text@;
    let quotes: usize = if seen.len() > SEEN_SAMPLE_MAX {
        SEEN_SAMPLE_MAX
    } else {
        seen.len()
    };
    let mut i: usize = 0;
    proof {
        assert(names.take(0).len() == 0);
        assert(text@ =~= head + listed(names.take(0)));
    }
    while i < quotes
        invariant
            i <= quotes <= seen@.len(),
            names == texts_view(seen@),
            text@ == head + listed(names.take(i as int)),
        decreases quotes - i,
    {
        proof {
            assert(names.take(i + 1).drop_last() =~= names.take(i as int));
            assert(names.take(i + 1).last() == seen@[i as int]@);
        }
        if i > 0 {
            push_text(&mut text, ", ");
        }
        push_quoted(&mut text, seen[i]);
        proof {
            if i == 0 {
                assert(names.take(1)[0] == seen@[0]@);
                assert(names.take(0).len() == 0);
            }
            assert(text@ =~= head + listed(names.take(i + 1)));
        }
        i = i + 1;
    }
    if seen.len() > SEEN_SAMPLE_MAX {
        push_text(&mut text, ", … ");
        push_decimal(&mut text, (seen.len() - SEEN_SAMPLE_MAX) as u64);
        push_text(&mut text, " more)");
    } else {
        proof {
            assert(names.take(i as int) =~= names);
        }
        push_text(&mut text, ")");
    }
    proof {
        assert(text@ =~= failure_text(target@, names));
    }
    text
}

/// Which records a browse looks for.
#[derive(Debug, Clone, Copy, PartialEq, Eq, Structural)]
pub enum Browse {
    /// Those of the fabric.
    Subtype,
    /// All operational ones.
    Base,
}

/// The browses that a search uses, given what opening them said: one that could
/// not be opened is left out, and so is the second one if it is the same as the
/// first. With none, the search fails for the reason that was given last.
pub open spec fn browses(
    subtype: Result<u64, TransportFault>,
    base: Result<u64, TransportFault>,
) -> Result<Seq<(Browse, u64)>, DriverError> {
    match (subtype, base) {
        (Err(_), Err(e)) => Err(DriverError::Transport(e)),
        (Ok(a), Err(_)) => Ok(seq![(Browse::Subtype, a)]),
        (Err(_), Ok(b)) => Ok(seq![(Browse::Base, b)]),
        (Ok(a), Ok(b)) => if a == b {
            Ok(seq![(Browse::Subtype, a)])
        } else {
            Ok(seq![(Browse::Subtype, a), (Browse::Base, b)])
        },
    }
}

/// Decides which browses a search uses.
pub fn plan_browses(subtype: Result<u64, TransportFault>, base: Result<u64, TransportFault>) -> (r:
    Result<Vec<(Browse, u64)>, DriverError>)
    ensures
        match browses(subtype, base) {
            Ok(view) => r matches Ok(list) && list@ == view,
            Err(e) => r == Err::<Vec<(Browse, u64)>, DriverError>(e),
        },
{
    let mut list: Vec<(Browse, u64)> = Vec::new();
    if let Ok(a) = subtype {
        list.push((Browse::Subtype, a));
    }
    match base {
        Ok(b) => {
            if list.len() == 0 || list[0].1 != b {
                list.push((Browse::Base, b));
            }
        },
        Err(e) => {
            if list.len() == 0 {
                return Err(DriverError::Transport(e));
            }
        },
    }
    proof {
        assert(list@ =~= browses(subtype, base)->Ok_0);
    }
    Ok(list)
}

/// A record of a service.
#[derive(Debug, Clone)]
pub struct ServiceRecord {
    /// The name.
    pub instance_name: String,
    /// The addresses.
    pub addresses: Vec<IpAddress>,
    /// The port.
    pub port: u16,
}

/// Where a service was found.
#[derive(Debug, Clone, Copy, PartialEq, Eq, Structural)]
pub struct Endpoint {
    /// The address.
    pub address: IpAddress,
    /// The port.
    pub port: u16,
}

/// The address at which a record answers a search for a name.
pub open spec fn record_answer(record: ServiceRecord, target: Seq<char>) -> Option<Endpoint> {
    if same_name(record.instance_name@, target) {
        match preferred(record.addresses@) {
            Some(address) => Some(Endpoint { address, port: record.port }),
            None => None,
        }
    } else {
        None
    }
}

/// The first record that answers a search for a name: its place and address.
pub open spec fn search_answer(records: Seq<ServiceRecord>, target: Seq<char>) -> Option<
    (nat, Endpoint),
>
    decreases records.len(),
{
    if records.len() == 0 {
        None
    } else {
        match record_answer(records[0], target) {
            Some(endpoint) => Some((0, endpoint)),
            None => match search_answer(records.skip(1), target) {
                Some((i, endpoint)) => Some((i + 1, endpoint)),
                None => None,
            },
        }
    }
}

/// The names of some records.
pub open spec fn record_names(records: Seq<ServiceRecord>) -> Seq<Seq<char>> {
    records.map_values(|record: ServiceRecord| record.instance_name@)
}

/// The names that a search keeps: each one that it sees while there is room.
pub open spec fn noted(kept: Set<Seq<char>>, names: Seq<Seq<char>>) -> Set<Seq<char>>
    decreases names.len(),
{
    if names.len() == 0 {
        kept
    } else {
        let before = noted(kept, names.drop_last());
        if before.len() < SEEN_TRACK_CAP {
            before.insert(names.last())
        } else {
            before
        }
    }
}

/// Whether a round can start.
pub open spec fn may_start(rounds_left: u32) -> bool {
    rounds_left > 0
}

/// How many rounds are left once one has been asked for.
pub open spec fn rounds_after(rounds_left: u32) -> u32 {
    if rounds_left > 0 {
        (rounds_left - 1) as u32
    } else {
        0
    }
}

/// A search for the operational record of a node.
#[derive(Debug)]
pub struct OperationalSearch {
    target: String,
    seen: Vec<String>,
    rounds_left: u32,
}

/// The model of a search.
#[verifier::ext_equal]
pub struct SearchView {
    /// The name that is wanted.
    pub target: Seq<char>,
    /// The names that were seen.
    pub seen: Seq<Seq<char>>,
    /// How many rounds are left.
    pub rounds_left: u32,
}

impl View for OperationalSearch {
    type V = SearchView;

    closed spec fn view(&self) -> SearchView {
        SearchView {
            target: self.target@,
            seen: names_view(self.seen@),
            rounds_left: self.rounds_left,
        }
    }
}

impl OperationalSearch {
    /// The names that were seen are in order, and not too many.
    pub closed spec fn wf(&self) -> bool {
        in_order(self@.seen) && self.seen@.len() <= SEEN_TRACK_CAP
    }

    /// A search for a node, with the given number of rounds.
    pub fn new(compressed_fabric_id: [u8; 8], node_id: u64, attempts: u32) -> (search: Self)
        ensures
            search.wf(),
            search@ == (SearchView {
                target: instance_name(compressed_fabric_id@, node_id),
                seen: Seq::empty(),
                rounds_left: attempts,
            }),
            search@.rounds_left == attempts,
    {
        let search = OperationalSearch {
            target: operational_instance_name(compressed_fabric_id, node_id),
            seen: Vec::new(),
            rounds_left: attempts,
        };
        proof {
            assert(search@.seen =~= Seq::<Seq<char>>::empty());
        }
        search
    }

    /// Starts a round, if one is left.
    pub fn start_round(&mut self) -> (go: bool)
        requires
            old(self).wf(),
        ensures
            final(self).wf(),
            go == (old(self)@.rounds_left > 0),
            go == may_start(old(self)@.rounds_left),
            final(self)@.rounds_left == rounds_after(old(self)@.rounds_left),
            final(self)@ == (SearchView {
                rounds_left: if go {
                    (old(self)@.rounds_left - 1) as u32
                } else {
                    0
                },
                ..old(self)@
            }),
    {
        if self.rounds_left == 0 {
            return false;
        }
        self.rounds_left = self.rounds_left - 1;
        true
    }

    /// Takes the records of a browse: the place and the address of the first one
    /// that answers the search. The names before it are kept for the case that
    /// the search fails, up to a limit.
    pub fn on_records(&mut self, records: &Vec<ServiceRecord>) -> (found: Option<
        (usize, Endpoint),
    >)
        requires
            old(self).wf(),
        ensures
            final(self).wf(),
            final(self)@.target == old(self)@.target,
            final(self)@.rounds_left == old(self)@.rounds_left,
            match search_answer(records@, old(self)@.target) {
                Some((i, endpoint)) => found matches Some((place, e)) && place == i && e
                    == endpoint,
                None => found is None,
            },
            found matches Some((place, e)) ==> {
                &&& place < records@.len()
                &&& e.port == records@[place as int].port
                &&& records@[place as int].addresses@.contains(e.address)
                &&& same_name(records@[place as int].instance_name@, old(self)@.target)
            },
            in_order(final(self)@.seen),
            final(self)@.seen.to_set() == noted(
                old(self)@.seen.to_set(),
                record_names(records@).take(
                    match found {
                        Some((place, _)) => place as int,
                        None => records@.len() as int,
                    },
                ),
            ),
    {
        let ghost start = self@;
        let ghost names = record_names(records@);
        let mut i: usize = 0;
        proof {
            assert(records@.skip(0) =~= records@);
            assert(names.take(0).len() == 0);
        }
        while i < records.len()
            invariant
                i <= records@.len(),
                self.wf(),
                self@.target == start.target,
                self@.rounds_left == start.rounds_left,
                start == old(self)@,
                match search_answer(records@.skip(i as int), start.target) {
                    Some((k, endpoint)) => search_answer(records@, start.target) == Some(
                        ((k + i) as nat, endpoint),
                    ),
                    None => search_answer(records@, start.target) is None,
                },
                names == record_names(records@),
                self@.seen.to_set() == noted(start.seen.to_set(), names.take(i as int)),
            decreases records@.len() - i,
        {
            let record = &records[i];
            proof {
                assert(records@.skip(i as int)[0] == *record);
                assert(records@.skip(i as int).skip(1) =~= records@.skip(i + 1));
            }
            if names_match(record.instance_name.as_str(), self.target.as_str()) {
                if let Some(address) = preferred_address(record.addresses.as_slice()) {
                    proof {
                        lemma_preferred_member(record.addresses@);
                    }
                    return Some((i, Endpoint { address, port: record.port }));
                }
            }
            proof {
                assert(names.take(i + 1).drop_last() =~= names.take(i as int));
                assert(names.take(i + 1).last() == record.instance_name@);
                lemma_in_order_distinct(self@.seen);
                self@.seen.unique_seq_to_set();
            }
            if self.seen.len() < SEEN_TRACK_CAP {
                let ghost before = self@.seen;
                let name = record.instance_name.clone();
                insert_name(&mut self.seen, name);
                proof {
                    assert(self@.seen.to_set() =~= before.to_set().insert(name@)) by {
                        assert forall|n: Seq<char>| #[trigger]
                            self@.seen.to_set().contains(n) <==> before.to_set().insert(
                                name@,
                            ).contains(n) by {
                            assert(self@.seen.contains(n) <==> before.contains(n) || n == name@);
                        }
                    }
                }
            }
            i = i + 1;
        }
        proof {
            assert(records@.skip(i as int).len() == 0);
            assert(names.take(i as int) =~= names.take(records@.len() as int));
        }
        None
    }

    /// The error of a search that found nothing.
    pub fn failure(&self) -> (e: DriverError)
        requires
            self.wf(),
        ensures
            e matches DriverError::Discovery(text) && text@ == failure_text(
                self@.target,
                self@.seen,
            ),
    {
        let mut names: Vec<&str> = Vec::new();
        let mut i: usize = 0;
        while i < self.seen.len()
            invariant
                i <= self.seen@.len(),
                names@.len() == i,
                forall|j: int| 0 <= j < i ==> (#[trigger] names@[j])@ == self.seen@[j]@,
            decreases self.seen@.len() - i,
        {
            names.push(self.seen[i].as_str());
            i = i + 1;
        }
        proof {
            assert(texts_view(names@) =~= self@.seen);
        }
        DriverError::Discovery(
            discovery_failure_message(self.target.as_str(), names.as_slice()),
        )
    }
}

/// A service that waits to be commissioned, as its record describes it.
#[derive(Debug, Clone)]
pub struct CommissionableRecord {
    /// The text of its discriminator.
    pub discriminator: Option<String>,
    /// The text of its commissioning mode.
    pub commissioning_mode: Option<String>,
    /// The addresses.
    pub addresses: Vec<IpAddress>,
    /// The port.
    pub port: u16,
}

/// The number that some digits stand for.
pub open spec fn digits_value(digits: Seq<u8>) -> Option<nat>
    decreases digits.len(),
{
    if digits.len() == 0 {
        Some(0)
    } else {
        match digits_value(digits.drop_last()) {
            None => None,
            Some(n) => if 0x30 <= digits.last() <= 0x39 {
                Some((10 * n + digits.last() - 0x30) as nat)
            } else {
                None
            },
        }
    }
}

/// The number of 16 bits that a text stands for: digits, possibly behind a plus
/// sign.
pub open spec fn number_of(text: Seq<char>) -> Option<u16> {
    let bytes = encode_utf8(text);
    let digits = if bytes.len() > 0 && bytes[0] == 0x2B {
        bytes.skip(1)
    } else {
        bytes
    };
    if digits.len() == 0 {
        None
    } else {
        match digits_value(digits) {
            None => None,
            Some(n) => if n <= u16::MAX {
                Some(n as u16)
            } else {
                None
            },
        }
    }
}

/// The number of more digits is none, or at least as large.
proof fn lemma_digits_grow(digits: Seq<u8>, k: int)
    requires
        0 <= k <= digits.len(),
    ensures
        match (digits_value(digits.take(k)), digits_value(digits)) {
            (Some(a), Some(b)) => a <= b,
            (None, b) => b is None,
            (_, None) => true,
        },
    decreases digits.len() - k,
{
    if k == digits.len() {
        assert(digits.take(k) =~= digits);
    } else {
        lemma_digits_grow(digits, k + 1);
        assert(digits.take(k + 1).drop_last() =~= digits.take(k));
    }
}

/// Reads a number of 16 bits.
pub fn parse_number(text: &str) -> (number: Option<u16>)
    ensures
        number == number_of(text@),
{
    let bytes = text.as_bytes();
    let total: usize = bytes.len();
    let start: usize = if total > 0 && bytes[0] == 0x2B {
        1
    } else {
        0
    };
    let ghost digits = if bytes@.len() > 0 && bytes@[0] == 0x2B {
        bytes@.skip(1)
    } else {
        bytes@
    };
    proof {
        assert(digits =~= bytes@.skip(start as int));
    }
    if start == total {
        return None;
    }
    let mut value: u32 = 0;
    let mut i: usize = start;
    proof {
        assert(digits.take(0).len() == 0);
    }
    while i < total
        invariant
            start <= i <= total,
            start <= 1,
            total == bytes@.len(),
            bytes@ == encode_utf8(text@),
            digits == bytes@.skip(start as int),
            digits == (if bytes@.len() > 0 && bytes@[0] == 0x2B {
                bytes@.skip(1)
            } else {
                bytes@
            }),
            digits.len() > 0,
            value <= 0xFFFF,
            digits_value(digits.take(i - start)) == Some(value as nat),
        decreases total - i,
    {
        let c = bytes[i];
        proof {
            let longer = digits.take(i - start + 1);
            assert(longer.drop_last() =~= digits.take(i - start));
            assert(longer.last() == c);
            lemma_digits_grow(digits, i - start + 1);
        }
        if c < 0x30 || c > 0x39 {
            return None;
        }
        value = value * 10 + (c - 0x30) as u32;
        if value > 0xFFFF {
            return None;
        }
        i = i + 1;
    }
    proof {
        assert(digits.take(i - start) =~= digits);
    }
    Some(value as u16)
}

/// Whether the window of a record is open: its mode is not 0.
pub open spec fn window_open(record: CommissionableRecord) -> bool {
    match record.commissioning_mode {
        None => true,
        Some(mode) => encode_utf8(mode@) != seq![0x30u8],
    }
}

/// The discriminator that a record gives.
pub open spec fn advertised(record: CommissionableRecord) -> Option<u16> {
    match record.discriminator {
        None => None,
        Some(text) => number_of(text@),
    }
}

/// The short discriminator: the upper four of twelve bits.
pub open spec fn short_of(discriminator: u16) -> u16 {
    (discriminator / 256) % 16
}

/// Where a record can be reached, if it is the one that is wanted: its window is
/// open and its discriminator, in full or in short, is the given one.
pub open spec fn commissionable_answer(
    record: CommissionableRecord,
    discriminator: u16,
    short: bool,
) -> Option<Endpoint> {
    if window_open(record) && match advertised(record) {
        None => false,
        Some(d) => if short {
            short_of(d) == short_of(discriminator)
        } else {
            d == discriminator
        },
    } {
        match preferred(record.addresses@) {
            Some(address) => Some(Endpoint { address, port: record.port }),
            None => None,
        }
    } else {
        None
    }
}

/// The first record that is wanted.
pub open spec fn first_commissionable(
    records: Seq<CommissionableRecord>,
    discriminator: u16,
    short: bool,
) -> Option<Endpoint>
    decreases records.len(),
{
    if records.len() == 0 {
        None
    } else {
        match commissionable_answer(records[0], discriminator, short) {
            Some(endpoint) => Some(endpoint),
            None => first_commissionable(records.skip(1), discriminator, short),
        }
    }
}

/// The device to commission: one with the full discriminator, else one with the
/// short discriminator.
pub open spec fn commissionable(
    records: Seq<CommissionableRecord>,
    discriminator: u16,
) -> Option<Endpoint> {
    match first_commissionable(records, discriminator, false) {
        Some(endpoint) => Some(endpoint),
        None => first_commissionable(records, discriminator, true),
    }
}

fn check_commissionable(record: &CommissionableRecord, discriminator: u16, short: bool) -> (found:
    Option<Endpoint>)
    ensures
        found == commissionable_answer(*record, discriminator, short),
{
    if let Some(mode) = &record.commissioning_mode {
        let zero: [u8; 1] = [0x30];
        if same_bytes(mode.as_str().as_bytes(), zero.as_slice()) {
            proof {
                assert(zero@ =~= seq![0x30u8]);
            }
            return None;
        }
        proof {
            assert(zero@ =~= seq![0x30u8]);
        }
    }
    let given = match &record.discriminator {
        None => {
            return None;
        },
        Some(text) => parse_number(text.as_str()),
    };
    match given {
        None => None,
        Some(d) => {
            let wanted = if short {
                (d / 256) % 16 == (discriminator / 256) % 16
            } else {
                d == discriminator
            };
            if !wanted {
                return None;
            }
            match preferred_address(record.addresses.as_slice()) {
                Some(address) => Some(Endpoint { address, port: record.port }),
                None => None,
            }
        },
    }
}

fn find_commissionable(records: &Vec<CommissionableRecord>, discriminator: u16, short: bool) -> (found:
    Option<Endpoint>)
    ensures
        found == first_commissionable(records@, discriminator, short),
{
    let mut i: usize = 0;
    proof {
        assert(records@.skip(0) =~= records@);
    }
    while i < records.len()
        invariant
            i <= records@.len(),
            first_commissionable(records@, discriminator, short) == first_commissionable(
                records@.skip(i as int),
                discriminator,
                short,
            ),
        decreases records@.len() - i,
    {
        proof {
            assert(records@.skip(i as int)[0] == records@[i as int]);
            assert(records@.skip(i as int).skip(1) =~= records@.skip(i + 1));
        }
        if let Some(endpoint) = check_commissionable(&records[i], discriminator, short) {
            return Some(endpoint);
        }
        i = i + 1;
    }
    proof {
        assert(records@.skip(i as int).len() == 0);
    }
    None
}

/// Picks the device to commission among the records of one look.
pub fn pick_commissionable(records: &Vec<CommissionableRecord>, discriminator: u16) -> (found:
    Option<Endpoint>)
    ensures
        found == commissionable(records@, discriminator),
{
    match find_commissionable(records, discriminator, false) {
        Some(endpoint) => Some(endpoint),
        None => find_commissionable(records, discriminator, true),
    }
}

/// What a failed search for a device to commission says.
pub open spec fn commissionable_failure_text(discriminator: u16) -> Seq<char> {
    "commissionable device with discriminator "@ + decimal(discriminator as nat) + " (short 0x"@
        + lower_hex(short_of(discriminator) as nat) + ") not found via mDNS"@
}

/// The error of a failed search for a device to commission.
pub fn commissionable_failure(discriminator: u16) -> (e: DriverError)
    ensures
        e matches DriverError::Discovery(text) && text@ == commissionable_failure_text(
            discriminator,
        ),
{
    let mut text = String::new();
    push_text(&mut text, "commissionable device with discriminator ");
    push_decimal(&mut text, discriminator as u64);
    push_text(&mut text, " (short 0x");
    push_lower_hex(&mut text, ((discriminator / 256) % 16) as u64);
    push_text(&mut text, ") not found via mDNS");
    proof {
        assert(text@ =~= commissionable_failure_text(discriminator));
    }
    DriverError::Discovery(text)
}

/// A search for a device to commission.
#[derive(Debug, Clone)]
pub struct CommissionableSearch {
    discriminator: u16,
    rounds_left: u32,
}

/// The model of a search for a device to commission.
#[verifier::ext_equal]
pub struct CommissionableSearchView {
    /// The discriminator that is wanted.
    pub discriminator: u16,
    /// How many rounds are left.
    pub rounds_left: u32,
}

impl View for CommissionableSearch {
    type V = CommissionableSearchView;

    closed spec fn view(&self) -> CommissionableSearchView {
        CommissionableSearchView {
            discriminator: self.discriminator,
            rounds_left: self.rounds_left,
        }
    }
}

impl CommissionableSearch {
    /// A search for a device with the given discriminator.
    pub fn new(discriminator: u16) -> (search: Self)
        ensures
            search@ == (CommissionableSearchView {
                discriminator,
                rounds_left: COMMISSIONABLE_POLL_ATTEMPTS,
            }),
            search@.discriminator == discriminator,
            search@.rounds_left == 50,
    {
        CommissionableSearch { discriminator, rounds_left: COMMISSIONABLE_POLL_ATTEMPTS }
    }

    /// Starts a round, if one is left.
    pub fn start_round(&mut self) -> (go: bool)
        ensures
            go == (old(self)@.rounds_left > 0),
            go == may_start(old(self)@.rounds_left),
            final(self)@.rounds_left == rounds_after(old(self)@.rounds_left),
            final(self)@ == (CommissionableSearchView {
                rounds_left: if go {
                    (old(self)@.rounds_left - 1) as u32
                } else {
                    0
                },
                ..old(self)@
            }),
    {
        if self.rounds_left == 0 {
            return false;
        }
        self.rounds_left = self.rounds_left - 1;
        true
    }

    /// Takes the records of one look: the address of the device, if it is among
    /// them.
    pub fn on_records(&self, records: &Vec<CommissionableRecord>) -> (found: Option<Endpoint>)
        ensures
            found == commissionable(records@, self@.discriminator),
    {
        pick_commissionable(records, self.discriminator)
    }

    /// The error of a search that found nothing.
    pub fn failure(&self) -> (e: DriverError)
        ensures
            e matches DriverError::Discovery(text) && text@ == commissionable_failure_text(
                self@.discriminator,
            ),
    {
        commissionable_failure(self.discriminator)
    }
}

/// A full match wins over a short one: a device that is reachable and
/// advertises the full discriminator with an open window is never passed over
/// for one that only shares its upper bits.
pub proof fn law_full_discriminator_wins(
    records: Seq<CommissionableRecord>,
    discriminator: u16,
    i: int,
)
    requires
        0 <= i < records.len(),
        commissionable_answer(records[i], discriminator, false) is Some,
    ensures
        commissionable(records, discriminator) is Some,
        commissionable(records, discriminator) == first_commissionable(
            records,
            discriminator,
            false,
        ),
    decreases records.len(),
{
    if i > 0 && commissionable_answer(records[0], discriminator, false) is None {
        law_full_discriminator_wins(records.skip(1), discriminator, i - 1);
    }
}

/// A link-local address is picked only if there is no other.
pub proof fn law_link_local_last(addresses: Seq<IpAddress>, i: int)
    requires
        0 <= i < addresses.len(),
        !is_link_local(addresses[i]),
    ensures
        preferred(addresses) matches Some(a) && !is_link_local(a),
{
    lemma_first_where(addresses, |a: IpAddress| !is_link_local(a), i);
    lemma_first_where_holds(addresses, |a: IpAddress| is_v4(a));
}

/// Where a condition holds of some address, the first one is found.
proof fn lemma_first_where(addresses: Seq<IpAddress>, wanted: spec_fn(IpAddress) -> bool, i: int)
    requires
        0 <= i < addresses.len(),
        wanted(addresses[i]),
    ensures
        first_where(addresses, wanted) matches Some(a) && wanted(a),
    decreases addresses.len(),
{
    if !wanted(addresses[0]) {
        lemma_first_where(addresses.skip(1), wanted, i - 1);
    }
}

/// The condition holds of the address that is found.
proof fn lemma_first_where_holds(addresses: Seq<IpAddress>, wanted: spec_fn(IpAddress) -> bool)
    ensures
        first_where(addresses, wanted) matches Some(a) ==> wanted(a),
    decreases addresses.len(),
{
    if addresses.len() > 0 && !wanted(addresses[0]) {
        lemma_first_where_holds(addresses.skip(1), wanted);
    }
}

/// A failed search names the node and says that it was not found.
pub proof fn law_failure_names_the_node(target: Seq<char>, seen: Seq<Seq<char>>)
    ensures
        ("operational node "@ + target + " not found via mDNS"@).is_prefix_of(
            failure_text(target, seen),
        ),
{
    let start = "operational node "@ + target + " not found via mDNS"@;
    assert(failure_text(target, seen).subrange(0, start.len() as int) =~= start);
}

/// A list of quoted names has a bounded length.
proof fn lemma_listed_len(names: Seq<Seq<char>>)
    ensures
        listed(names).len() <= 51 * names.len(),
    decreases names.len(),
{
    reveal_strlit(", ");
    if names.len() > 1 {
        lemma_listed_len(names.drop_last());
    }
}

/// A number below one hundred takes at most two digits.
proof fn lemma_short_decimal(n: nat)
    requires
        n < 100,
    ensures
        decimal(n).len() <= 2,
{
    reveal_with_fuel(decimal, 2);
}

/// However many records a network has, and however long their names are, what a
/// failed search says stays short.
pub proof fn law_failure_text_is_bounded(target: Seq<char>, seen: Seq<Seq<char>>)
    requires
        seen.len() <= SEEN_TRACK_CAP,
    ensures
        failure_text(target, seen).len() <= target.len() + 400,
{
    reveal_strlit("operational node ");
    reveal_strlit(" not found via mDNS");
    reveal_strlit(
        " (saw 0 operational mDNS records — either no _matter._tcp response reached this host, or responses arrived and were discarded before being counted; RUST_LOG=matter_transport::mdns=debug distinguishes the two)",
    );
    reveal_strlit(" (saw ");
    reveal_strlit(" operational mDNS record(s), none matching: ");
    reveal_strlit(", … ");
    reveal_strlit(" more)");
    reveal_strlit(")");
    lemma_short_decimal(seen.len());
    if seen.len() > SEEN_SAMPLE_MAX {
        lemma_short_decimal((seen.len() - SEEN_SAMPLE_MAX) as nat);
        lemma_listed_len(seen.take(SEEN_SAMPLE_MAX as int));
    } else {
        lemma_listed_len(seen);
    }
}

/// How many numbers have `width` digits in base sixteen.
spec fn hex_limit(width: nat) -> nat
    decreases width,
{
    if width == 0 {
        1
    } else {
        16 * hex_limit((width - 1) as nat)
    }
}

/// Digits tell numbers apart.
proof fn lemma_padded_hex_injective(n: nat, m: nat, width: nat)
    requires
        n < hex_limit(width),
        m < hex_limit(width),
        padded_hex(n, width) == padded_hex(m, width),
    ensures
        n == m,
    decreases width,
{
    if width > 0 {
        let before = padded_hex(n / 16, (width - 1) as nat);
        let other = padded_hex(m / 16, (width - 1) as nat);
        lemma_padded_hex_digits(n / 16, (width - 1) as nat);
        lemma_padded_hex_digits(m / 16, (width - 1) as nat);
        assert(padded_hex(n, width).drop_last() =~= before);
        assert(padded_hex(m, width).drop_last() =~= other);
        assert(padded_hex(n, width).last() == digit_char(n % 16));
        assert(padded_hex(m, width).last() == digit_char(m % 16));
        lemma_padded_hex_injective(n / 16, m / 16, (width - 1) as nat);
    }
}

/// Whether a character is a digit in base sixteen, in upper case, or a dash.
spec fn is_name_char(c: char) -> bool {
    '0' <= c <= '9' || 'A' <= c <= 'F' || c == '-'
}

/// How many digits a padded number has, and what they are.
proof fn lemma_padded_hex_digits(n: nat, width: nat)
    ensures
        padded_hex(n, width).len() == width,
        forall|i: int| 0 <= i < width ==> is_name_char(#[trigger] padded_hex(n, width)[i]),
    decreases width,
{
    if width > 0 {
        lemma_padded_hex_digits(n / 16, (width - 1) as nat);
    }
}

/// A number of bytes is below its limit, and bytes tell numbers apart.
proof fn lemma_be_value(a: Seq<u8>)
    ensures
        be_value(a) < hex_limit(2 * a.len()),
    decreases a.len(),
{
    if a.len() > 0 {
        lemma_be_value(a.drop_last());
        reveal_with_fuel(hex_limit, 3);
        assert(hex_limit(2 * a.len()) == 256 * hex_limit(2 * a.drop_last().len()));
    }
}

/// Bytes of one length that stand for one number are the same.
proof fn lemma_be_value_injective(a: Seq<u8>, b: Seq<u8>)
    requires
        a.len() == b.len(),
        be_value(a) == be_value(b),
    ensures
        a == b,
    decreases a.len(),
{
    if a.len() > 0 {
        lemma_be_value_injective(a.drop_last(), b.drop_last());
        assert(a =~= a.drop_last().push(a.last()));
        assert(b =~= b.drop_last().push(b.last()));
    } else {
        assert(a =~= b);
    }
}

/// What the name of a record is made of.
proof fn lemma_instance_name(fabric: Seq<u8>, node_id: u64)
    requires
        fabric.len() == 8,
    ensures
        instance_name(fabric, node_id).len() == 33,
        forall|i: int| 0 <= i < 33 ==> is_name_char(#[trigger] instance_name(fabric, node_id)[i]),
        instance_name(fabric, node_id).take(16) == padded_hex(be_value(fabric), 16),
        instance_name(fabric, node_id).skip(17) == padded_hex(node_id as nat, 16),
{
    reveal_strlit("-");
    lemma_padded_hex_digits(be_value(fabric), 16);
    lemma_padded_hex_digits(node_id as nat, 16);
    let name = instance_name(fabric, node_id);
    assert(name.take(16) =~= padded_hex(be_value(fabric), 16));
    assert(name.skip(17) =~= padded_hex(node_id as nat, 16));
    assert forall|i: int| 0 <= i < 33 implies is_name_char(#[trigger] name[i]) by {
        if i < 16 {
            assert(name[i] == padded_hex(be_value(fabric), 16)[i]);
        } else if i > 16 {
            assert(name[i] == padded_hex(node_id as nat, 16)[i - 17]);
        }
    }
}

/// The names of operational records tell nodes apart: they are the same, but for
/// the case of letters, only for the same node of the same fabric. Each has 33
/// characters.
pub proof fn law_names_tell_nodes_apart(
    fabric: Seq<u8>,
    node_id: u64,
    other_fabric: Seq<u8>,
    other_node_id: u64,
)
    requires
        fabric.len() == 8,
        other_fabric.len() == 8,
    ensures
        instance_name(fabric, node_id).len() == 33,
        same_name(instance_name(fabric, node_id), instance_name(other_fabric, other_node_id))
            <==> fabric == other_fabric && node_id == other_node_id,
{
    let a = instance_name(fabric, node_id);
    let b = instance_name(other_fabric, other_node_id);
    lemma_instance_name(fabric, node_id);
    lemma_instance_name(other_fabric, other_node_id);
    assert forall|i: int| 0 <= i < a.len() implies '\0' <= #[trigger] a[i] <= '\u{7f}' by {
        assert(is_name_char(a[i]));
    }
    assert forall|i: int| 0 <= i < b.len() implies '\0' <= #[trigger] b[i] <= '\u{7f}' by {
        assert(is_name_char(b[i]));
    }
    is_ascii_chars_encode_utf8(a);
    is_ascii_chars_encode_utf8(b);
    if same_name(a, b) {
        let lower = |x: u8| ascii_lower(x);
        let low_a = encode_utf8(a).map_values(lower);
        let low_b = encode_utf8(b).map_values(lower);
        assert forall|i: int| 0 <= i < 33 implies #[trigger] a[i] == b[i] by {
            assert(low_a[i] == low_b[i]);
            assert(a[i] as u8 == encode_utf8(a)[i]);
            assert(b[i] as u8 == encode_utf8(b)[i]);
            assert(is_name_char(a[i]));
            assert(is_name_char(b[i]));
        }
        assert(a =~= b);
        reveal_with_fuel(hex_limit, 17);
        lemma_be_value(fabric);
        lemma_be_value(other_fabric);
        lemma_padded_hex_injective(be_value(fabric), be_value(other_fabric), 16);
        lemma_padded_hex_injective(node_id as nat, other_node_id as nat, 16);
        lemma_be_value_injective(fabric, other_fabric);
    }
}

/// An address that is found is one of those that there are.
proof fn lemma_first_where_member(addresses: Seq<IpAddress>, wanted: spec_fn(IpAddress) -> bool)
    ensures
        first_where(addresses, wanted) matches Some(a) ==> addresses.contains(a),
    decreases addresses.len(),
{
    if addresses.len() > 0 {
        if wanted(addresses[0]) {
            assert(addresses.contains(addresses[0]));
        } else {
            let rest = addresses.skip(1);
            lemma_first_where_member(rest, wanted);
            if let Some(a) = first_where(rest, wanted) {
                let i = choose|i: int| 0 <= i < rest.len() && rest[i] == a;
                assert(addresses[i + 1] == a);
            }
        }
    }
}

/// The first address with a condition is the one before which none has it.
proof fn lemma_first_where_place(
    addresses: Seq<IpAddress>,
    wanted: spec_fn(IpAddress) -> bool,
    i: int,
)
    requires
        0 <= i <= addresses.len(),
        forall|j: int| 0 <= j < i ==> !wanted(#[trigger] addresses[j]),
    ensures
        i < addresses.len() && wanted(addresses[i]) ==> first_where(addresses, wanted) == Some(
            addresses[i],
        ),
        i == addresses.len() ==> first_where(addresses, wanted) is None,
    decreases i,
{
    if i > 0 {
        let rest = addresses.skip(1);
        assert(!wanted(addresses[0]));
        assert forall|j: int| 0 <= j < i - 1 implies !wanted(#[trigger] rest[j]) by {
            assert(rest[j] == addresses[j + 1]);
        }
        lemma_first_where_place(rest, wanted, i - 1);
    }
}

/// The address that is picked is one of those that there are.
proof fn lemma_preferred_member(addresses: Seq<IpAddress>)
    ensures
        preferred(addresses) matches Some(a) ==> addresses.contains(a),
        preferred(addresses) is None <==> addresses.len() == 0,
{
    lemma_first_where_member(addresses, |a: IpAddress| is_v4(a));
    lemma_first_where_member(addresses, |a: IpAddress| !is_link_local(a));
    lemma_first_where_member(addresses, |a: IpAddress| true);
}

/// An address is good on its link only exactly if it is of version 6 and its
/// first ten bits are `1111111010`.
pub proof fn law_link_local(address: IpAddress)
    ensures
        is_link_local(address) <==> (address matches IpAddress::V6(v) && v as int
            / 0x40_0000_0000_0000_0000_0000_0000_0000 == 0x3FA),
{
}

/// An address is picked unless there are none, and it is one of those that there
/// are.
pub proof fn law_picked_address_is_given(addresses: Seq<IpAddress>)
    ensures
        preferred(addresses) is None <==> addresses.len() == 0,
        preferred(addresses) matches Some(a) ==> addresses.contains(a),
{
    lemma_preferred_member(addresses);
}

/// The first address of version 4 is picked, wherever it stands.
pub proof fn law_version_4_first(addresses: Seq<IpAddress>, i: int)
    requires
        0 <= i < addresses.len(),
        addresses[i] is V4,
        forall|j: int| 0 <= j < i ==> #[trigger] addresses[j] is V6,
    ensures
        preferred(addresses) == Some(addresses[i]),
{
    lemma_first_where_place(addresses, |a: IpAddress| is_v4(a), i);
}

/// Without one of version 4, the first address that is good beyond its link is
/// picked.
pub proof fn law_version_6_order(addresses: Seq<IpAddress>, i: int)
    requires
        0 <= i < addresses.len(),
        forall|j: int| 0 <= j < addresses.len() ==> #[trigger] addresses[j] is V6,
        addresses[i]->V6_0 as int / 0x40_0000_0000_0000_0000_0000_0000_0000 != 0x3FA,
        forall|j: int|
            0 <= j < i ==> (#[trigger] addresses[j])->V6_0 as int
                / 0x40_0000_0000_0000_0000_0000_0000_0000 == 0x3FA,
    ensures
        preferred(addresses) == Some(addresses[i]),
{
    lemma_first_where_place(addresses, |a: IpAddress| is_v4(a), addresses.len() as int);
    law_link_local(addresses[i]);
    assert forall|j: int| 0 <= j < i implies !(|a: IpAddress| !is_link_local(a))(
        #[trigger] addresses[j],
    ) by {
        law_link_local(addresses[j]);
        assert(addresses[j] is V6);
    }
    lemma_first_where_place(addresses, |a: IpAddress| !is_link_local(a), i);
}

/// Where all addresses are good on their link only, the first one is picked.
pub proof fn law_link_local_order(addresses: Seq<IpAddress>)
    requires
        addresses.len() > 0,
        forall|j: int| 0 <= j < addresses.len() ==> #[trigger] addresses[j] is V6,
        forall|j: int|
            0 <= j < addresses.len() ==> (#[trigger] addresses[j])->V6_0 as int
                / 0x40_0000_0000_0000_0000_0000_0000_0000 == 0x3FA,
    ensures
        preferred(addresses) == Some(addresses[0]),
{
    let n = addresses.len() as int;
    lemma_first_where_place(addresses, |a: IpAddress| is_v4(a), n);
    assert forall|j: int| 0 <= j < n implies !(|a: IpAddress| !is_link_local(a))(
        #[trigger] addresses[j],
    ) by {
        law_link_local(addresses[j]);
        assert(addresses[j] is V6);
    }
    lemma_first_where_place(addresses, |a: IpAddress| !is_link_local(a), n);
}

/// What a search finds is what the record says of itself: the port is that of the
/// record, the address is one of the record's, and the name of the record is the
/// one that is wanted but for the case of letters of ASCII. No record before it
/// has that name and an address.
pub proof fn law_search_finds_the_record(records: Seq<ServiceRecord>, target: Seq<char>)
    ensures
        search_answer(records, target) matches Some((i, e)) ==> {
            &&& i < records.len()
            &&& e.port == records[i as int].port
            &&& records[i as int].addresses@.contains(e.address)
            &&& Some(e.address) == preferred(records[i as int].addresses@)
            &&& same_name(records[i as int].instance_name@, target)
            &&& forall|j: int|
                0 <= j < i ==> (#[trigger] records[j]).addresses@.len() == 0 || !same_name(
                    records[j].instance_name@,
                    target,
                )
        },
    decreases records.len(),
{
    if records.len() > 0 {
        lemma_preferred_member(records[0].addresses@);
        if record_answer(records[0], target) is None {
            let rest = records.skip(1);
            law_search_finds_the_record(rest, target);
            if let Some((i, e)) = search_answer(rest, target) {
                assert(rest[i as int] == records[i as int + 1]);
                assert forall|j: int| 0 <= j < i + 1 implies (
                #[trigger] records[j]).addresses@.len() == 0 || !same_name(
                    records[j].instance_name@,
                    target,
                ) by {
                    if j > 0 {
                        assert(rest[j - 1] == records[j]);
                    }
                }
            }
        }
    }
}

/// A search succeeds as soon as a record has the wanted name and an address.
pub proof fn law_search_misses_nothing(records: Seq<ServiceRecord>, target: Seq<char>, i: int)
    requires
        0 <= i < records.len(),
        same_name(records[i].instance_name@, target),
        records[i].addresses@.len() > 0,
    ensures
        search_answer(records, target) matches Some((k, e)) && k <= i,
    decreases records.len(),
{
    lemma_preferred_member(records[0].addresses@);
    if record_answer(records[0], target) is None {
        assert(i > 0);
        assert(records.skip(1)[i - 1] == records[i]);
        law_search_misses_nothing(records.skip(1), target, i - 1);
    }
}

/// A device that is found to commission is one of the records, with its own port
/// and one of its own addresses; its window is open, and it advertises the wanted
/// discriminator, or one with the same upper four of twelve bits.
pub proof fn law_commissionable_device_is_a_record(
    records: Seq<CommissionableRecord>,
    discriminator: u16,
) -> (i: int)
    requires
        commissionable(records, discriminator) is Some,
    ensures
        0 <= i < records.len(),
        commissionable(records, discriminator)->Some_0.port == records[i].port,
        records[i].addresses@.contains(commissionable(records, discriminator)->Some_0.address),
        preferred(records[i].addresses@) == Some(
            commissionable(records, discriminator)->Some_0.address,
        ),
        records[i].commissioning_mode matches Some(mode) ==> encode_utf8(mode@) != seq![0x30u8],
        records[i].discriminator matches Some(text) && number_of(text@) matches Some(d) && (d
            == discriminator || (d as int / 0x100) % 0x10 == (discriminator as int / 0x100) % 0x10),
{
    if first_commissionable(records, discriminator, false) is Some {
        lemma_first_commissionable(records, discriminator, false)
    } else {
        lemma_first_commissionable(records, discriminator, true)
    }
}

/// The record that a look for a device finds.
proof fn lemma_first_commissionable(
    records: Seq<CommissionableRecord>,
    discriminator: u16,
    short: bool,
) -> (i: int)
    requires
        first_commissionable(records, discriminator, short) is Some,
    ensures
        0 <= i < records.len(),
        first_commissionable(records, discriminator, short) == commissionable_answer(
            records[i],
            discriminator,
            short,
        ),
        records[i].addresses@.contains(
            first_commissionable(records, discriminator, short)->Some_0.address,
        ),
        forall|j: int|
            0 <= j < i ==> commissionable_answer(
                #[trigger] records[j],
                discriminator,
                short,
            ) is None,
    decreases records.len(),
{
    lemma_preferred_member(records[0].addresses@);
    if commissionable_answer(records[0], discriminator, short) is Some {
        0
    } else {
        let rest = records.skip(1);
        let i = lemma_first_commissionable(rest, discriminator, short);
        assert(rest[i] == records[i + 1]);
        assert forall|j: int| 0 <= j < i + 1 implies commissionable_answer(
            #[trigger] records[j],
            discriminator,
            short,
        ) is None by {
            if j > 0 {
                assert(rest[j - 1] == records[j]);
            }
        }
        i + 1
    }
}

/// A device that has an address, whose window is open and that advertises the
/// wanted discriminator is found, or one before it is; and where the first such
/// device stands, it is the one.
pub proof fn law_commissionable_device_is_found(
    records: Seq<CommissionableRecord>,
    discriminator: u16,
    i: int,
)
    requires
        0 <= i < records.len(),
        records[i].addresses@.len() > 0,
        records[i].commissioning_mode matches Some(mode) ==> encode_utf8(mode@) != seq![0x30u8],
        records[i].discriminator matches Some(text) && number_of(text@) == Some(discriminator),
        forall|j: int|
            0 <= j < i ==> ((#[trigger] records[j]).discriminator matches Some(text) ==> number_of(
                text@,
            ) != Some(discriminator)),
    ensures
        commissionable(records, discriminator) matches Some(e) && e.port == records[i].port && Some(
            e.address,
        ) == preferred(records[i].addresses@),
    decreases records.len(),
{
    lemma_preferred_member(records[i].addresses@);
    assert(commissionable_answer(records[i], discriminator, false) is Some);
    if i > 0 {
        let rest = records.skip(1);
        assert(commissionable_answer(records[0], discriminator, false) is None);
        assert(rest[i - 1] == records[i]);
        assert forall|j: int| 0 <= j < i - 1 implies ((
        #[trigger] rest[j]).discriminator matches Some(text) ==> number_of(text@) != Some(
            discriminator,
        )) by {
            assert(rest[j] == records[j + 1]);
        }
        law_commissionable_device_is_found(rest, discriminator, i - 1);
        lemma_first_is_full(rest, discriminator, i - 1);
    }
}

/// A record with the full discriminator is found in full.
proof fn lemma_first_is_full(records: Seq<CommissionableRecord>, discriminator: u16, i: int)
    requires
        0 <= i < records.len(),
        commissionable_answer(records[i], discriminator, false) is Some,
    ensures
        first_commissionable(records, discriminator, false) is Some,
    decreases records.len(),
{
    if i > 0 && commissionable_answer(records[0], discriminator, false) is None {
        assert(records.skip(1)[i - 1] == records[i]);
        lemma_first_is_full(records.skip(1), discriminator, i - 1);
    }
}

/// A record that does not say which device it is, or whose window is closed, or
/// that has no address, is never picked.
pub proof fn law_unfit_record_is_passed_over(
    record: CommissionableRecord,
    discriminator: u16,
    short: bool,
)
    requires
        record.discriminator is None || record.addresses@.len() == 0 || (
        record.commissioning_mode matches Some(mode) && encode_utf8(mode@) == seq![0x30u8]),
    ensures
        commissionable_answer(record, discriminator, short) is None,
{
    lemma_preferred_member(record.addresses@);
}

/// A text is read as a number only if it is digits, with at most a plus sign
/// before them.
pub proof fn law_numbers_are_digits(text: Seq<char>, i: int)
    requires
        number_of(text) is Some,
        0 <= i < encode_utf8(text).len(),
    ensures
        0x30 <= encode_utf8(text)[i] <= 0x39 || (i == 0 && encode_utf8(text)[i] == 0x2B
            && encode_utf8(text).len() > 1),
{
    let bytes = encode_utf8(text);
    if bytes[0] == 0x2B {
        if i > 0 {
            lemma_digits(bytes.skip(1), i - 1);
            assert(bytes.skip(1)[i - 1] == bytes[i]);
        }
    } else {
        lemma_digits(bytes, i);
    }
}

/// What has a value is digits.
proof fn lemma_digits(digits: Seq<u8>, i: int)
    requires
        digits_value(digits) is Some,
        0 <= i < digits.len(),
    ensures
        0x30 <= digits[i] <= 0x39,
    decreases digits.len(),
{
    if i < digits.len() - 1 {
        lemma_digits(digits.drop_last(), i);
    }
}

/// One more digit makes the number ten times as large, and adds the digit; a
/// single digit is its number.
pub proof fn law_digits_are_decimal(digits: Seq<u8>, digit: u8, n: nat)
    requires
        digits_value(digits) == Some(n),
        digit < 10,
    ensures
        digits_value(digits.push((0x30 + digit) as u8)) == Some((10 * n + digit) as nat),
        digits_value(seq![(0x30 + digit) as u8]) == Some(digit as nat),
{
    assert(digits.push((0x30 + digit) as u8).drop_last() =~= digits);
    let one = seq![(0x30 + digit) as u8];
    assert(one.drop_last() =~= Seq::<u8>::empty());
    reveal_with_fuel(digits_value, 2);
}

/// What a browse is used for stays with its handle, and a search goes on with
/// whichever browse could be opened.
pub proof fn law_browses(subtype: Result<u64, TransportFault>, base: Result<u64, TransportFault>)
    ensures
        subtype is Err && base is Err <==> browses(subtype, base) is Err,
        browses(subtype, base) matches Err(e) ==> (base matches Err(fault) && e
            == DriverError::Transport(fault)),
        browses(subtype, base) matches Ok(list) ==> {
            &&& 1 <= list.len() <= 2
            &&& subtype matches Ok(handle) ==> list[0] == (Browse::Subtype, handle)
            &&& base matches Ok(handle) ==> list.last().1 == handle
            &&& forall|i: int|
                0 <= i < list.len() ==> match (#[trigger] list[i]).0 {
                    Browse::Subtype => subtype == Ok::<u64, TransportFault>(list[i].1),
                    Browse::Base => base == Ok::<u64, TransportFault>(list[i].1),
                }
            &&& list.len() == 2 ==> list[0].1 != list[1].1
        },
{
}

/// The names that a search keeps: those that it had and those that it sees, up to
/// 64 of them.
pub proof fn law_noted_names(kept: Set<Seq<char>>, names: Seq<Seq<char>>)
    requires
        kept.finite(),
        kept.len() <= 64,
    ensures
        noted(kept, names).finite(),
        noted(kept, names).len() <= 64,
        forall|name: Seq<char>| #[trigger] kept.contains(name) ==> noted(kept, names).contains(name),
        forall|name: Seq<char>| #[trigger]
            noted(kept, names).contains(name) ==> kept.contains(name) || names.contains(name),
        noted(kept, names).len() < 64 ==> forall|i: int|
            0 <= i < names.len() ==> noted(kept, names).contains(#[trigger] names[i]),
    decreases names.len(),
{
    if names.len() > 0 {
        let before = names.drop_last();
        law_noted_names(kept, before);
        assert forall|name: Seq<char>| #[trigger]
            noted(kept, names).contains(name) implies kept.contains(name) || names.contains(
            name,
        ) by {
            if before.contains(name) {
                let i = choose|i: int| 0 <= i < before.len() && before[i] == name;
                assert(names[i] == name);
            }
            if name == names.last() {
                assert(names[names.len() - 1] == name);
            }
        }
        if noted(kept, names).len() < 64 {
            assert forall|i: int| 0 <= i < names.len() implies noted(kept, names).contains(
                #[trigger] names[i],
            ) by {
                if i < before.len() {
                    assert(before[i] == names[i]);
                }
            }
        }
    }
}

/// A name of up to 48 characters is quoted as it is; of a longer one come the
/// first 48 and an ellipsis.
pub proof fn law_quoted_names(name: Seq<char>)
    ensures
        name.len() <= 48 ==> quoted(name) == name,
        name.len() > 48 ==> {
            &&& quoted(name).len() == 49
            &&& forall|i: int| 0 <= i < 48 ==> quoted(name)[i] == name[i]
            &&& quoted(name)[48] == '…'
        },
{
}

/// The two digits of each byte stand in order in the digits of a number.
proof fn lemma_hex_of_bytes(bytes: Seq<u8>, i: int)
    requires
        0 <= i < bytes.len(),
    ensures
        padded_hex(be_value(bytes), 2 * bytes.len()).len() == 2 * bytes.len(),
        padded_hex(be_value(bytes), 2 * bytes.len())[2 * i] == digit_char((bytes[i] / 16) as nat),
        padded_hex(be_value(bytes), 2 * bytes.len())[2 * i + 1] == digit_char(
            (bytes[i] % 16) as nat,
        ),
    decreases bytes.len(),
{
    let before = bytes.drop_last();
    let k = be_value(before);
    let high = (bytes.last() / 16) as nat;
    let low = (bytes.last() % 16) as nat;
    let short = padded_hex(k, 2 * before.len());
    lemma_padded_hex_digits(k, 2 * before.len());
    assert(be_value(bytes) == 16 * (16 * k + high) + low);
    law_padded_numbers(k, 2 * before.len(), high);
    law_padded_numbers(16 * k + high, 2 * before.len() + 1, low);
    assert(padded_hex(be_value(bytes), 2 * bytes.len()) == short.push(digit_char(high)).push(
        digit_char(low),
    ));
    if i < before.len() {
        lemma_hex_of_bytes(before, i);
        assert(before[i] == bytes[i]);
    }
}

/// The name of an operational record spells the bytes of the compressed fabric,
/// a dash, and the bytes of the node from the highest down: two digits for each
/// byte, the higher half first, letters in upper case.
pub proof fn law_instance_name_spells(fabric: Seq<u8>, node: Seq<u8>, node_id: u64, i: int)
    requires
        fabric.len() == 8,
        node.len() == 8,
        node_id == node[7] + 0x100 * node[6] + 0x1_0000 * node[5] + 0x100_0000 * node[4]
            + 0x1_0000_0000 * node[3] + 0x100_0000_0000 * node[2] + 0x1_0000_0000_0000 * node[1]
            + 0x100_0000_0000_0000 * node[0],
        0 <= i < 8,
    ensures
        ({
            let name = instance_name(fabric, node_id);
            &&& name.len() == 33
            &&& name[16] == '-'
            &&& name[2 * i] as int == (if fabric[i] < 160 {
                48 + fabric[i] / 16
            } else {
                55 + fabric[i] / 16
            })
            &&& name[2 * i + 1] as int == (if fabric[i] % 16 < 10 {
                48 + fabric[i] % 16
            } else {
                55 + fabric[i] % 16
            })
            &&& name[17 + 2 * i] as int == (if node[i] < 160 {
                48 + node[i] / 16
            } else {
                55 + node[i] / 16
            })
            &&& name[18 + 2 * i] as int == (if node[i] % 16 < 10 {
                48 + node[i] % 16
            } else {
                55 + node[i] % 16
            })
        }),
{
    let name = instance_name(fabric, node_id);
    reveal_strlit("-");
    lemma_instance_name(fabric, node_id);
    lemma_hex_of_bytes(fabric, i);
    lemma_hex_of_bytes(node, i);
    assert(be_value(node) == node_id) by {
        reveal_with_fuel(be_value, 9);
    }
    let first = padded_hex(be_value(fabric), 16);
    let second = padded_hex(node_id as nat, 16);
    assert(name[2 * i] == first[2 * i]);
    assert(name[2 * i + 1] == first[2 * i + 1]);
    assert(name[17 + 2 * i] == second[2 * i]);
    assert(name[18 + 2 * i] == second[2 * i + 1]);
}

/// A search says how many names it saw, quotes at most five of them, and how many
/// more there were.
pub proof fn law_failure_counts_the_names(target: Seq<char>, seen: Seq<Seq<char>>)
    ensures
        ({
            let start = "operational node "@ + target + " not found via mDNS"@;
            let count = " (saw "@ + decimal(seen.len());
            &&& 0 < seen.len() ==> (start + count).is_prefix_of(failure_text(target, seen))
            &&& 0 < seen.len() <= 5 ==> failure_text(target, seen) == start + count
                + " operational mDNS record(s), none matching: "@ + listed(seen) + ")"@
            &&& seen.len() > 5 ==> failure_text(target, seen) == start + count
                + " operational mDNS record(s), none matching: "@ + listed(seen.take(5)) + ", … "@
                + decimal((seen.len() - 5) as nat) + " more)"@
        }),
{
    let start = "operational node "@ + target + " not found via mDNS"@;
    let count = " (saw "@ + decimal(seen.len());
    let middle = " operational mDNS record(s), none matching: "@;
    if 0 < seen.len() <= 5 {
        assert(failure_text(target, seen) =~= start + count + middle + listed(seen) + ")"@);
    }
    if seen.len() > 5 {
        assert(failure_text(target, seen) =~= start + count + middle + listed(seen.take(5))
            + ", … "@ + decimal((seen.len() - 5) as nat) + " more)"@);
    }
    if seen.len() > 0 {
        assert(failure_text(target, seen).subrange(0, (start + count).len() as int) =~= start
            + count);
    }
}

/// What a failed search for a device says: its discriminator in base ten, and in
/// base sixteen the upper four of its twelve bits.
pub proof fn law_commissionable_failure(discriminator: u16)
    ensures
        commissionable_failure_text(discriminator) == "commissionable device with discriminator "@
            + decimal(discriminator as nat) + " (short 0x"@ + lower_hex(
            (discriminator as nat / 0x100) % 0x10,
        ) + ") not found via mDNS"@,
{
}

/// A search has as many rounds as it was given: each one that starts leaves one
/// less, and none starts when none is left.
pub proof fn law_rounds(rounds_left: u32)
    ensures
        may_start(rounds_left) ==> rounds_after(rounds_left) + 1 == rounds_left,
        !may_start(rounds_left) <==> rounds_left == 0,
        rounds_after(0) == 0,
{
}

} // verus!
