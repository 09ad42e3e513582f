//! IP addresses, address blocks and the lists that let clients in or keep them out.
use crate::outside::{cidr_block, ip_address, parse_cidr, parse_ip};
use crate::text::texts;
use vstd::arithmetic::power2::pow2;
use vstd::prelude::*;

verus! {

/// An IP address: its family and its bits.
#[derive(Clone, Copy, Debug, PartialEq, Eq, Structural)]
pub enum IpAddr {
    V4(u32),
    V6(u128),
}

/// A block of addresses in CIDR notation: an address and the number of leading
/// bits that all addresses of the block share with it.
#[derive(Clone, Copy, Debug, PartialEq, Eq, Structural)]
pub struct IpNet {
    pub addr: IpAddr,
    pub prefix_len: u8,
}

/// Whether two numbers of `width` bits agree in their `len` leading bits.
pub open spec fn same_prefix(a: nat, b: nat, width: nat, len: nat) -> bool {
    a / pow2((width - len) as nat) == b / pow2((width - len) as nat)
}

impl IpNet {
    /// A prefix is no longer than the address.
    pub open spec fn valid(self) -> bool {
        match self.addr {
            IpAddr::V4(_) => self.prefix_len <= 32,
            IpAddr::V6(_) => self.prefix_len <= 128,
        }
    }

    /// Whether an address lies in the block.
    pub open spec fn holds(self, ip: IpAddr) -> bool {
        self.valid() && match (self.addr, ip) {
            (IpAddr::V4(a), IpAddr::V4(b)) => same_prefix(
                a as nat,
                b as nat,
                32,
                self.prefix_len as nat,
            ),
            (IpAddr::V6(a), IpAddr::V6(b)) => same_prefix(
                a as nat,
                b as nat,
                128,
                self.prefix_len as nat,
            ),
            _ => false,
        }
    }

    /// Whether an address lies in the block.
    pub fn contains(&self, ip: &IpAddr) -> (r: bool)
        ensures
            r == self.holds(*ip),
    {
        match (self.addr, *ip) {
            (IpAddr::V4(a), IpAddr::V4(b)) => {
                if self.prefix_len > 32 {
                    return false;
                }
                let shift: u32 = 32 - self.prefix_len as u32;
                proof {
                    lemma_short(a as nat, 32);
                    lemma_short(b as nat, 32);
                    if shift < 32 {
                        vstd::bits::lemma_u32_shr_is_div(a, shift);
                        vstd::bits::lemma_u32_shr_is_div(b, shift);
                    }
                }
                shift == 32 || (a >> shift) == (b >> shift)
            },
            (IpAddr::V6(a), IpAddr::V6(b)) => {
                if self.prefix_len > 128 {
                    return false;
                }
                let shift: u128 = 128 - self.prefix_len as u128;
                proof {
                    lemma_short(a as nat, 128);
                    lemma_short(b as nat, 128);
                    if shift < 128 {
                        vstd::bits::lemma_u128_shr_is_div(a, shift);
                        vstd::bits::lemma_u128_shr_is_div(b, shift);
                    }
                }
                shift == 128 || (a >> shift) == (b >> shift)
            },
            _ => false,
        }
    }

    /// The block that holds one address only.
    pub fn host(addr: IpAddr) -> (r: IpNet)
        ensures
            r == host_block(addr),
    {
        match addr {
            IpAddr::V4(_) => IpNet { addr, prefix_len: 32 },
            IpAddr::V6(_) => IpNet { addr, prefix_len: 128 },
        }
    }
}

/// The block that holds one address only.
pub open spec fn host_block(addr: IpAddr) -> IpNet {
    match addr {
        IpAddr::V4(_) => IpNet { addr, prefix_len: 32 },
        IpAddr::V6(_) => IpNet { addr, prefix_len: 128 },
    }
}

/// A number of `width` bits has nothing beyond them.
proof fn lemma_short(a: nat, width: nat)
    requires
        width == 32 && a <= u32::MAX || width == 128 && a <= u128::MAX,
    ensures
        a / pow2(width) == 0,
{
    vstd::arithmetic::power2::lemma2_to64();
    vstd::arithmetic::power2::lemma2_to64_rest();
    vstd::arithmetic::power2::lemma_pow2_adds(64, 64);
    assert(pow2(128) == 0x100000000000000000000000000000000) by {
        assert(0x10000000000000000 * 0x10000000000000000 == 0x100000000000000000000000000000000);
    }
    vstd::arithmetic::div_mod::lemma_basic_div(a as int, pow2(width) as int);
}

/// The block of a single address holds that address and no other.
pub proof fn host_block_holds_one_address(addr: IpAddr, ip: IpAddr)
    ensures
        host_block(addr).holds(ip) <==> addr == ip,
{
    vstd::arithmetic::power2::lemma2_to64();
    assert(forall|n: nat| #[trigger] (n / 1) == n);
    match (addr, ip) {
        (IpAddr::V4(a), IpAddr::V4(b)) => {
            assert(same_prefix(a as nat, b as nat, 32, 32) <==> a as nat / 1 == b as nat / 1);
        },
        (IpAddr::V6(a), IpAddr::V6(b)) => {
            assert(same_prefix(a as nat, b as nat, 128, 128) <==> a as nat / 1 == b as nat / 1);
        },
        _ => {},
    }
}

/// A block of prefix length 0 holds every address of its family.
pub proof fn empty_prefix_holds_family(addr: IpAddr, ip: IpAddr)
    ensures
        (IpNet { addr, prefix_len: 0 }).holds(ip) <==> (addr is V4 <==> ip is V4),
{
    match (addr, ip) {
        (IpAddr::V4(a), IpAddr::V4(b)) => {
            lemma_short(a as nat, 32);
            lemma_short(b as nat, 32);
        },
        (IpAddr::V6(a), IpAddr::V6(b)) => {
            lemma_short(a as nat, 128);
            lemma_short(b as nat, 128);
        },
        _ => {},
    }
}

/// Whether one of the blocks holds the address.
pub open spec fn some_block_holds(list: Seq<IpNet>, ip: IpAddr) -> bool {
    exists|i: int| 0 <= i < list.len() && (#[trigger] list[i]).holds(ip)
}

/// Whether the lists of a route let an address in: no block of the blacklist holds
/// it, and where there is a whitelist, some block of it does.
pub open spec fn addr_allowed(
    ip: IpAddr,
    whitelist: Option<Seq<IpNet>>,
    blacklist: Option<Seq<IpNet>>,
) -> bool {
    &&& blacklist matches Some(list) ==> !some_block_holds(list, ip)
    &&& whitelist matches Some(list) ==> some_block_holds(list, ip)
}

/// Whether the lists of a route let a client in; a client without a readable
/// address is let in.
pub open spec fn ip_allowed(
    client_ip: Seq<char>,
    whitelist: Option<Seq<IpNet>>,
    blacklist: Option<Seq<IpNet>>,
) -> bool {
    ip_address(client_ip) matches Some(ip) ==> addr_allowed(ip, whitelist, blacklist)
}

fn any_contains(list: &Vec<IpNet>, ip: &IpAddr) -> (r: bool)
    ensures
        r == some_block_holds(list@, *ip),
{
    let mut i: usize = 0;
    while i < list.len()
        invariant
            i <= list@.len(),
            forall|j: int| 0 <= j < i ==> !(#[trigger] list@[j]).holds(*ip),
        decreases list@.len() - i,
    {
        if list[i].contains(ip) {
            assert(list@[i as int].holds(*ip));
            return true;
        }
        i += 1;
    }
    false
}

/// Whether the lists of a route let an address in.
pub fn is_addr_allowed(
    ip: &IpAddr,
    whitelist: &Option<Vec<IpNet>>,
    blacklist: &Option<Vec<IpNet>>,
) -> (r: bool)
    ensures
        r == addr_allowed(
            *ip,
            crate::model::opt_list(*whitelist),
            crate::model::opt_list(*blacklist),
        ),
        r <==> {
            &&& blacklist matches Some(list) ==> forall|i: int|
                0 <= i < list@.len() ==> !(#[trigger] list@[i]).holds(*ip)
            &&& whitelist matches Some(list) ==> exists|i: int|
                0 <= i < list@.len() && (#[trigger] list@[i]).holds(*ip)
        },
{
    if let Some(list) = blacklist {
        if any_contains(list, ip) {
            return false;
        }
    }
    if let Some(list) = whitelist {
        return any_contains(list, ip);
    }
    true
}

/// Whether the lists of a route let a client in.
pub fn is_ip_allowed(
    client_ip: &str,
    whitelist: &Option<Vec<IpNet>>,
    blacklist: &Option<Vec<IpNet>>,
) -> (r: bool)
    ensures
        r == ip_allowed(
            client_ip@,
            crate::model::opt_list(*whitelist),
            crate::model::opt_list(*blacklist),
        ),
{
    match parse_ip(client_ip) {
        Some(ip) => is_addr_allowed(&ip, whitelist, blacklist),
        None => true,
    }
}

/// What an entry of an address list denotes: a CIDR block or a single address.
pub open spec fn list_entry(s: Seq<char>) -> Option<IpNet> {
    match cidr_block(s) {
        Some(net) => Some(net),
        None => match ip_address(s) {
            Some(ip) => Some(host_block(ip)),
            None => None,
        },
    }
}

/// The blocks of an address list, or the first entry that denotes none.
pub open spec fn list_blocks(list: Seq<Seq<char>>) -> Result<Seq<IpNet>, Seq<char>>
    decreases list.len(),
{
    if list.len() == 0 {
        Ok(Seq::empty())
    } else {
        match list_blocks(list.drop_last()) {
            Err(e) => Err(e),
            Ok(nets) => match list_entry(list.last()) {
                Some(net) => Ok(nets.push(net)),
                None => Err(list.last()),
            },
        }
    }
}

/// The blocks of an optional address list.
pub open spec fn opt_blocks(list: Option<Seq<Seq<char>>>) -> Result<Option<Seq<IpNet>>, Seq<char>> {
    match list {
        None => Ok(None),
        Some(l) => match list_blocks(l) {
            Ok(nets) => Ok(Some(nets)),
            Err(e) => Err(e),
        },
    }
}

/// Reads an entry of an address list.
pub fn parse_entry(s: &str) -> (r: Option<IpNet>)
    ensures
        r == list_entry(s@),
        r matches Some(net) ==> net.valid(),
{
    match parse_cidr(s) {
        Some(net) => Some(net),
        None => match parse_ip(s) {
            Some(ip) => Some(IpNet::host(ip)),
            None => None,
        },
    }
}

/// A bad entry spoils every list that begins with it.
proof fn lemma_bad_entry(list: Seq<Seq<char>>, n: int, e: Seq<char>)
    requires
        0 <= n <= list.len(),
        list_blocks(list.take(n)) == Err::<Seq<IpNet>, Seq<char>>(e),
    ensures
        list_blocks(list) == Err::<Seq<IpNet>, Seq<char>>(e),
    decreases list.len() - n,
{
    if n < list.len() {
        assert(list.take(n + 1).drop_last() =~= list.take(n));
        lemma_bad_entry(list, n + 1, e);
    } else {
        assert(list.take(n) =~= list);
    }
}

/// Reads an address list; the first entry that denotes no block is handed back.
pub fn parse_list(list: &Vec<String>) -> (r: Result<Vec<IpNet>, String>)
    ensures
        match r {
            Ok(nets) => list_blocks(texts(list@)) == Ok::<Seq<IpNet>, Seq<char>>(nets@)
                && forall|i: int| 0 <= i < nets@.len() ==> (#[trigger] nets@[i]).valid(),
            Err(e) => list_blocks(texts(list@)) == Err::<Seq<IpNet>, Seq<char>>(e@),
        },
{
    let mut nets: Vec<IpNet> = Vec::new();
    let mut i: usize = 0;
    let ghost all = texts(list@);
    while i < list.len()
        invariant
            i <= list@.len(),
            all == texts(list@),
            list_blocks(all.take(i as int)) == Ok::<Seq<IpNet>, Seq<char>>(nets@),
            forall|j: int| 0 <= j < nets@.len() ==> (#[trigger] nets@[j]).valid(),
        decreases list@.len() - i,
    {
        proof {
            assert(all.take(i + 1).drop_last() =~= all.take(i as int));
            assert(all.take(i + 1).last() == list@[i as int]@);
        }
        match parse_entry(list[i].as_str()) {
            Some(net) => {
                nets.push(net);
            },
            None => {
                proof {
                    lemma_bad_entry(all, i + 1, list@[i as int]@);
                }
                return Err(list[i].clone());
            },
        }
        i += 1;
    }
    proof {
        assert(all.take(i as int) =~= all);
    }
    Ok(nets)
}

/// Reads an optional address list.
pub fn parse_opt_list(list: &Option<Vec<String>>) -> (r: Result<Option<Vec<IpNet>>, String>)
    ensures
        match r {
            Ok(nets) => opt_blocks(crate::config::types::opt_texts(*list)) == Ok::<
                Option<Seq<IpNet>>,
                Seq<char>,
            >(crate::model::opt_list(nets)),
            Err(e) => opt_blocks(crate::config::types::opt_texts(*list)) == Err::<
                Option<Seq<IpNet>>,
                Seq<char>,
            >(e@),
        },
{
    match list {
        None => Ok(None),
        Some(l) => match parse_list(l) {
            Ok(nets) => Ok(Some(nets)),
            Err(e) => Err(e),
        },
    }
}

// ---- laws ----

/// A block whose prefix leaves `n` bits free holds the addresses of its family in one run
/// of 2 to the power of `n`, which starts at a multiple of that number and in which the
/// address of the block lies; it holds no others.
pub proof fn block_holds_a_run_of_addresses(net: IpNet, ip: IpAddr)
    requires
        net.valid(),
    ensures
        match (net.addr, ip) {
            (IpAddr::V4(a), IpAddr::V4(b)) => ({
                let size = pow2((32 - net.prefix_len) as nat) as int;
                net.holds(ip) <==> a - a as int % size <= b < a - a as int % size + size
            }),
            (IpAddr::V6(a), IpAddr::V6(b)) => ({
                let size = pow2((128 - net.prefix_len) as nat) as int;
                net.holds(ip) <==> a - a as int % size <= b < a - a as int % size + size
            }),
            _ => !net.holds(ip),
        },
{
    match (net.addr, ip) {
        (IpAddr::V4(a), IpAddr::V4(b)) => {
            vstd::arithmetic::power2::lemma_pow2_pos((32 - net.prefix_len) as nat);
            lemma_same_quotient(a as int, b as int, pow2((32 - net.prefix_len) as nat) as int);
        },
        (IpAddr::V6(a), IpAddr::V6(b)) => {
            vstd::arithmetic::power2::lemma_pow2_pos((128 - net.prefix_len) as nat);
            lemma_same_quotient(a as int, b as int, pow2((128 - net.prefix_len) as nat) as int);
        },
        _ => {},
    }
}

/// Two numbers have the same quotient if and only if they lie in one run of multiples.
proof fn lemma_same_quotient(a: int, b: int, size: int)
    requires
        size > 0,
    ensures
        a / size == b / size <==> a - a % size <= b < a - a % size + size,
{
    vstd::arithmetic::div_mod::lemma_fundamental_div_mod(a, size);
    vstd::arithmetic::div_mod::lemma_fundamental_div_mod(b, size);
    vstd::arithmetic::div_mod::lemma_mod_bound(b, size);
    let (p, q) = (a / size, b / size);
    assert(p < q ==> size * p + size <= size * q) by (nonlinear_arith)
        requires
            size > 0,
    ;
    assert(q < p ==> size * q + size <= size * p) by (nonlinear_arith)
        requires
            size > 0,
    ;
}

/// A client whose address lies in a block of the whitelist, at whatever place of the list
/// the block stands, and in no block of the blacklist is let in.
pub proof fn whitelisted_clients_are_let_in(
    client_ip: Seq<char>,
    ip: IpAddr,
    whitelist: Seq<IpNet>,
    place: int,
    blacklist: Option<Seq<IpNet>>,
)
    requires
        ip_address(client_ip) == Some(ip),
        0 <= place < whitelist.len(),
        whitelist[place].holds(ip),
        blacklist matches Some(list) ==> forall|i: int|
            0 <= i < list.len() ==> !(#[trigger] list[i]).holds(ip),
    ensures
        addr_allowed(ip, Some(whitelist), blacklist),
        ip_allowed(client_ip, Some(whitelist), blacklist),
{
}

/// A client whose address lies in no block of the whitelist is kept out.
pub proof fn other_clients_are_kept_out(
    client_ip: Seq<char>,
    ip: IpAddr,
    whitelist: Seq<IpNet>,
    blacklist: Option<Seq<IpNet>>,
)
    requires
        ip_address(client_ip) == Some(ip),
        forall|i: int| 0 <= i < whitelist.len() ==> !(#[trigger] whitelist[i]).holds(ip),
    ensures
        !addr_allowed(ip, Some(whitelist), blacklist),
        !ip_allowed(client_ip, Some(whitelist), blacklist),
{
}

/// A client whose address lies in a block of the blacklist, at whatever place of the list
/// the block stands, is kept out, whatever the whitelist says.
pub proof fn blacklisted_clients_are_kept_out(
    client_ip: Seq<char>,
    ip: IpAddr,
    whitelist: Option<Seq<IpNet>>,
    blacklist: Seq<IpNet>,
    place: int,
)
    requires
        ip_address(client_ip) == Some(ip),
        0 <= place < blacklist.len(),
        blacklist[place].holds(ip),
    ensures
        !addr_allowed(ip, whitelist, Some(blacklist)),
        !ip_allowed(client_ip, whitelist, Some(blacklist)),
{
}

/// Without a whitelist every client is let in whose address lies in no block of the
/// blacklist, and so is one without a readable address, whatever the lists say.
pub proof fn clients_without_a_list_are_let_in(
    client_ip: Seq<char>,
    whitelist: Option<Seq<IpNet>>,
    blacklist: Option<Seq<IpNet>>,
)
    ensures
        ip_address(client_ip) is None ==> ip_allowed(client_ip, whitelist, blacklist),
        forall|ip: IpAddr|
            ip_address(client_ip) == Some(ip) && whitelist is None && (
            blacklist matches Some(list) ==> forall|i: int|
                0 <= i < list.len() ==> !(#[trigger] list[i]).holds(ip))
                ==> #[trigger] addr_allowed(ip, whitelist, blacklist) && ip_allowed(
                client_ip,
                whitelist,
                blacklist,
            ),
{
}

/// What `is_addr_allowed` returns: for every place of the whitelist, a block there that holds
/// the address lets it in, unless a block of the blacklist holds it; with a whitelist of
/// which no block holds the address, or with a blacklist of which one does, it is kept out;
/// without a whitelist it is let in where no block of the blacklist holds it.
pub proof fn every_place_of_the_lists_counts(
    ip: IpAddr,
    whitelist: Option<Vec<IpNet>>,
    blacklist: Option<Vec<IpNet>>,
    allowed: bool,
)
    requires
        call_ensures(is_addr_allowed, (&ip, &whitelist, &blacklist), allowed),
    ensures
        forall|i: int|
            (whitelist matches Some(list) && 0 <= i < list@.len() && (
            #[trigger] whitelist->0@[i]).holds(ip)) && (blacklist matches Some(list) ==> forall|
                j: int,
            |
                0 <= j < list@.len() ==> !(#[trigger] list@[j]).holds(ip)) ==> allowed,
        (whitelist matches Some(list) && forall|i: int|
            0 <= i < list@.len() ==> !(#[trigger] list@[i]).holds(ip)) ==> !allowed,
        forall|j: int|
            (blacklist matches Some(list) && 0 <= j < list@.len() && (
            #[trigger] blacklist->0@[j]).holds(ip)) ==> !allowed,
        whitelist is None && (blacklist matches Some(list) ==> forall|j: int|
            0 <= j < list@.len() ==> !(#[trigger] list@[j]).holds(ip)) ==> allowed,
{
}

/// The order in which the blocks of a list stand does not matter, nor does a block that
/// stands in it twice.
pub proof fn order_of_blocks_does_not_matter(
    ip: IpAddr,
    whitelist: Seq<IpNet>,
    other_whitelist: Seq<IpNet>,
    blacklist: Seq<IpNet>,
    other_blacklist: Seq<IpNet>,
)
    requires
        forall|net: IpNet| whitelist.contains(net) <==> other_whitelist.contains(net),
        forall|net: IpNet| blacklist.contains(net) <==> other_blacklist.contains(net),
    ensures
        addr_allowed(ip, Some(whitelist), Some(blacklist)) == addr_allowed(
            ip,
            Some(other_whitelist),
            Some(other_blacklist),
        ),
{
    lemma_same_blocks(ip, whitelist, other_whitelist);
    lemma_same_blocks(ip, blacklist, other_blacklist);
}

proof fn lemma_same_blocks(ip: IpAddr, list: Seq<IpNet>, other: Seq<IpNet>)
    requires
        forall|net: IpNet| list.contains(net) <==> other.contains(net),
    ensures
        some_block_holds(list, ip) == some_block_holds(other, ip),
{
    if some_block_holds(list, ip) {
        let i = choose|i: int| 0 <= i < list.len() && (#[trigger] list[i]).holds(ip);
        assert(list.contains(list[i]));
        assert(other.contains(list[i]));
    }
    if some_block_holds(other, ip) {
        let i = choose|i: int| 0 <= i < other.len() && (#[trigger] other[i]).holds(ip);
        assert(other.contains(other[i]));
        assert(list.contains(other[i]));
    }
}

/// A text in CIDR notation stands for its block; the text of an address stands for a block
/// that holds this address and no other; any other text stands for nothing.
pub proof fn entries_stand_for_blocks(s: Seq<char>, ip: IpAddr)
    ensures
        cidr_block(s) is Some ==> list_entry(s) == cidr_block(s),
        cidr_block(s) is None && ip_address(s) is Some ==> list_entry(s) is Some && (
        list_entry(s)->0.holds(ip) <==> ip_address(s) == Some(ip)),
        cidr_block(s) is None && ip_address(s) is None ==> list_entry(s) is None,
{
    host_block_holds_one_address(ip_address(s)->0, ip);
}

/// A list whose entries all stand for blocks stands for these blocks, each at the place of
/// its entry; any other list is refused with the first entry that stands for none.
pub proof fn lists_stand_for_their_blocks(list: Seq<Seq<char>>)
    ensures
        match list_blocks(list) {
            Ok(nets) => nets.len() == list.len() && forall|i: int|
                0 <= i < list.len() ==> list_entry(#[trigger] list[i]) == Some(nets[i]),
            Err(e) => exists|i: int|
                0 <= i < list.len() && #[trigger] list[i] == e && list_entry(e) is None && forall|
                    j: int,
                |
                    0 <= j < i ==> list_entry(#[trigger] list[j]) is Some,
        },
        list_blocks(list) is Ok <==> forall|i: int|
            0 <= i < list.len() ==> list_entry(#[trigger] list[i]) is Some,
        opt_blocks(None) == Ok::<Option<Seq<IpNet>>, Seq<char>>(None),
        match list_blocks(list) {
            Ok(nets) => opt_blocks(Some(list)) == Ok::<Option<Seq<IpNet>>, Seq<char>>(Some(nets)),
            Err(e) => opt_blocks(Some(list)) == Err::<Option<Seq<IpNet>>, Seq<char>>(e),
        },
    decreases list.len(),
{
    if list.len() > 0 {
        let front = list.drop_last();
        lists_stand_for_their_blocks(front);
        let last = list.len() - 1;
        assert(list[last] == list.last());
        match list_blocks(front) {
            Err(e) => {
                let i = choose|i: int|
                    0 <= i < front.len() && #[trigger] front[i] == e && list_entry(e) is None
                        && forall|j: int| 0 <= j < i ==> list_entry(#[trigger] front[j]) is Some;
                assert(list[i] == e);
                assert forall|j: int| 0 <= j < i implies list_entry(#[trigger] list[j]) is Some by {
                    assert(front[j] == list[j]);
                }
            },
            Ok(nets) => {
                assert forall|i: int| 0 <= i < front.len() implies list_entry(#[trigger] list[i])
                    == Some(nets[i]) by {
                    assert(front[i] == list[i]);
                }
            },
        }
    }
}

} // verus!
