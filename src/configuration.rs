use vstd::prelude::*;

use crate::types::{ReplicaID, ViewNumber};
use vstd::string::StringSliceAdditionalSpecFns;

verus! {

/// An IPv4 socket address: the address as a big-endian number, and the port.
#[derive(Clone, Copy, Debug, PartialEq, Eq, Structural)]
pub struct Address {
    pub ip: u32,
    pub port: u16,
}

/// Position of an address in the total order of addresses: by IP, then by port.
pub open spec fn addr_key(a: Address) -> int {
    a.ip as int * 65536 + a.port as int
}

/// Strictly increasing by address, so free of duplicates.
pub open spec fn strictly_sorted(s: Seq<Address>) -> bool {
    forall|i: int, j: int| 0 <= i < j < s.len() ==> addr_key(#[trigger] s[i]) < addr_key(#[trigger] s[j])
}

/// The port of an address written without one.
pub const DEFAULT_PORT: u16 = 80;

/// An ASCII decimal digit.
pub open spec fn is_digit(b: u8) -> bool {
    48 <= b <= 57
}

/// The number that the decimal digits `s` write.
pub open spec fn decimal_value(s: Seq<u8>) -> nat
    decreases s.len(),
{
    if s.len() == 0 {
        0
    } else {
        decimal_value(s.drop_last()) * 10 + (s.last() - 48) as nat
    }
}

/// Ten to the power `k`.
pub open spec fn pow10(k: nat) -> nat
    decreases k,
{
    if k == 0 {
        1
    } else {
        10 * pow10((k - 1) as nat)
    }
}

/// A field of 1 to `max_len` decimal digits whose value is at most `limit`.
pub open spec fn decimal_field(s: Seq<u8>, max_len: nat, limit: nat) -> Option<nat> {
    if 1 <= s.len() <= max_len && (forall|i: int| 0 <= i < s.len() ==> is_digit(#[trigger] s[i]))
        && decimal_value(s) <= limit {
        Some(decimal_value(s))
    } else {
        None
    }
}

/// An octet of an IPv4 address: up to three digits, at most 255, no leading zero.
pub open spec fn octet_field(s: Seq<u8>) -> Option<nat> {
    if s.len() > 1 && s[0] == 48 {
        None
    } else {
        decimal_field(s, 3, 255)
    }
}

/// A port, as `u16` reads from text: an optional `+`, then one or more digits,
/// leading zeros allowed, whose value is at most 65535.
pub open spec fn port_field(s: Seq<u8>) -> Option<nat> {
    if s.len() > 0 && s[0] == 43 {
        unsigned_field(s.drop_first(), 65535)
    } else {
        unsigned_field(s, 65535)
    }
}

/// One or more decimal digits, of any length, whose value is at most `limit`.
pub open spec fn unsigned_field(d: Seq<u8>, limit: nat) -> Option<nat> {
    if d.len() >= 1 && (forall|i: int| 0 <= i < d.len() ==> is_digit(#[trigger] d[i]))
        && decimal_value(d) <= limit {
        Some(decimal_value(d))
    } else {
        None
    }
}

/// Position of the first `b` in `s`, or `s.len()` when there is none.
pub open spec fn first_index(s: Seq<u8>, b: u8) -> nat
    decreases s.len(),
{
    if s.len() == 0 {
        0
    } else if s[0] == b {
        0
    } else {
        1 + first_index(s.drop_first(), b)
    }
}

/// `s` cut at its first `b`, which is dropped; `None` when there is no `b`.
pub open spec fn split_once(s: Seq<u8>, b: u8) -> Option<(Seq<u8>, Seq<u8>)> {
    let d = first_index(s, b) as int;
    if d < s.len() {
        Some((s.subrange(0, d), s.subrange(d + 1, s.len() as int)))
    } else {
        None
    }
}

/// The dotted-quad IPv4 address that `s` writes, as a number.
pub open spec fn parse_ipv4(s: Seq<u8>) -> Option<u32> {
    match split_once(s, 46) {
        None => None,
        Some((a, r1)) => match split_once(r1, 46) {
            None => None,
            Some((b, r2)) => match split_once(r2, 46) {
                None => None,
                Some((c, d)) => match (octet_field(a), octet_field(b), octet_field(c), octet_field(d)) {
                    (Some(x), Some(y), Some(z), Some(w)) => Some(
                        (x * 16777216 + y * 65536 + z * 256 + w) as u32,
                    ),
                    _ => None,
                },
            },
        },
    }
}

/// The address that `s` writes: `a.b.c.d`, or `a.b.c.d:port`; without a port the
/// default port is meant.
#[verifier::opaque]
pub open spec fn address_of_bytes(s: Seq<u8>) -> Option<Address> {
    match split_once(s, 58) {
        None => match parse_ipv4(s) {
            Some(ip) => Some(Address { ip, port: DEFAULT_PORT }),
            None => None,
        },
        Some((host, port)) => match (parse_ipv4(host), port_field(port)) {
            (Some(ip), Some(p)) => Some(Address { ip, port: p as u16 }),
            _ => None,
        },
    }
}

proof fn lemma_decimal_bound(s: Seq<u8>)
    requires
        forall|i: int| 0 <= i < s.len() ==> is_digit(#[trigger] s[i]),
    ensures
        decimal_value(s) < pow10(s.len()),
    decreases s.len(),
{
    if s.len() > 0 {
        lemma_decimal_bound(s.drop_last());
        assert(is_digit(s[s.len() - 1]));
    }
}

proof fn lemma_decimal_prefix_le(t: Seq<u8>, k: int)
    requires
        0 <= k <= t.len(),
    ensures
        decimal_value(t.subrange(0, k)) <= decimal_value(t),
    decreases t.len(),
{
    if k == t.len() {
        assert(t.subrange(0, k) =~= t);
    } else {
        lemma_decimal_prefix_le(t.drop_last(), k);
        assert(t.drop_last().subrange(0, k) =~= t.subrange(0, k));
    }
}

proof fn lemma_first_index(s: Seq<u8>, b: u8, i: int)
    requires
        0 <= i <= s.len(),
        forall|j: int| 0 <= j < i ==> s[j] != b,
        i == s.len() || s[i] == b,
    ensures
        first_index(s, b) == i,
    decreases i,
{
    if i > 0 {
        lemma_first_index(s.drop_first(), b, i - 1);
    }
}

/// Errors of configuration assembly and lookup.
#[derive(Clone, Copy, Debug, PartialEq, Eq, Structural)]
pub enum ConfigError {
    /// An address string is not `a.b.c.d` or `a.b.c.d:port`.
    ConfigurationError,
    /// A replica index beyond the configuration.
    UnknownReplica,
}

/// The static, sorted list of replica addresses of a cluster.
#[derive(Clone, Debug)]
pub struct Configuration {
    replicas: Vec<Address>,
}

impl View for Configuration {
    type V = Seq<Address>;

    closed spec fn view(&self) -> Seq<Address> {
        self.replicas@
    }
}

fn addr_le(a: &Address, b: &Address) -> (r: bool)
    ensures
        r == (addr_key(*a) <= addr_key(*b)),
{
    a.ip < b.ip || (a.ip == b.ip && a.port <= b.port)
}

/// The first position in `start..end` of `s` that holds `b`, or `end`.
fn find_byte(s: &[u8], start: usize, end: usize, b: u8) -> (r: usize)
    requires
        start <= end <= s@.len(),
    ensures
        r == start + first_index(s@.subrange(start as int, end as int), b),
        r <= end,
{
    let mut i = start;
    while i < end
        invariant
            start <= i <= end <= s@.len(),
            forall|j: int| start <= j < i ==> s@[j] != b,
        ensures
            start <= i <= end,
            i < end ==> s@[i as int] == b,
            forall|j: int| start <= j < i ==> s@[j] != b,
        decreases end - i,
    {
        if s[i] == b {
            break;
        }
        i = i + 1;
    }
    proof {
        let t = s@.subrange(start as int, end as int);
        if i < end {
            assert(s@[i as int] == b);
        }
        lemma_first_index(t, b, i - start);
    }
    i
}

/// The value of the decimal field `start..end` of `s`, as [`decimal_field`] says.
fn decimal_in(s: &[u8], start: usize, end: usize, max_len: usize, limit: u32) -> (r: Option<u32>)
    requires
        start <= end <= s@.len(),
        max_len <= 5,
    ensures
        r == (match decimal_field(s@.subrange(start as int, end as int), max_len as nat, limit as nat) {
            Some(v) => Some(v as u32),
            None => None,
        }),
{
    let ghost t = s@.subrange(start as int, end as int);
    if end == start || end - start > max_len {
        return None;
    }
    let mut v: u32 = 0;
    let mut i = start;
    while i < end
        invariant
            start <= i <= end <= s@.len(),
            end - start <= 5,
            t == s@.subrange(start as int, end as int),
            forall|j: int| start <= j < i ==> is_digit(#[trigger] s@[j]),
            v == decimal_value(s@.subrange(start as int, i as int)),
            v < pow10((i - start) as nat),
        decreases end - i,
    {
        let c = s[i];
        if c < 48 || c > 57 {
            assert(!is_digit(t[i - start]));
            return None;
        }
        proof {
            let p = s@.subrange(start as int, i as int + 1);
            assert(p.drop_last() =~= s@.subrange(start as int, i as int));
            reveal_with_fuel(pow10, 6);
            assert(pow10((i - start) as nat) <= 10000);
        }
        v = v * 10 + (c - 48) as u32;
        i = i + 1;
    }
    assert(s@.subrange(start as int, i as int) == t);
    if v > limit {
        None
    } else {
        Some(v)
    }
}

/// The port written in `start..end` of `s`, as [`port_field`] says.
fn port_in(s: &[u8], start: usize, end: usize) -> (r: Option<u32>)
    requires
        start <= end <= s@.len(),
    ensures
        r == (match port_field(s@.subrange(start as int, end as int)) {
            Some(v) => Some(v as u32),
            None => None,
        }),
{
    let ghost t = s@.subrange(start as int, end as int);
    let mut begin = start;
    if begin < end && s[begin] == 43 {
        begin = begin + 1;
    }
    let ghost d = s@.subrange(begin as int, end as int);
    assert(port_field(t) == unsigned_field(d, 65535)) by {
        if t.len() > 0 && t[0] == 43 {
            assert(d =~= t.drop_first());
        } else {
            assert(d =~= t);
        }
    }
    if begin == end {
        return None;
    }
    let mut v: u32 = 0;
    let mut i = begin;
    while i < end
        invariant
            begin <= i <= end <= s@.len(),
            d == s@.subrange(begin as int, end as int),
            t == s@.subrange(start as int, end as int),
            port_field(t) == unsigned_field(d, 65535),
            forall|j: int| begin <= j < i ==> is_digit(#[trigger] s@[j]),
            v == decimal_value(s@.subrange(begin as int, i as int)),
            v <= 65535,
        decreases end - i,
    {
        let c = s[i];
        if c < 48 || c > 57 {
            assert(!is_digit(d[i - begin]));
            assert(unsigned_field(d, 65535) is None);
            return None;
        }
        proof {
            let p = s@.subrange(begin as int, i as int + 1);
            assert(p.drop_last() =~= s@.subrange(begin as int, i as int));
        }
        v = v * 10 + (c - 48) as u32;
        i = i + 1;
        if v > 65535 {
            proof {
                lemma_decimal_prefix_le(d, i - begin);
                assert(d.subrange(0, i - begin) =~= s@.subrange(begin as int, i as int));
                assert(unsigned_field(d, 65535) is None);
            }
            return None;
        }
    }
    assert(s@.subrange(begin as int, i as int) =~= d);
    assert forall|j: int| 0 <= j < d.len() implies is_digit(#[trigger] d[j]) by {
        assert(d[j] == s@[begin + j]);
    }
    Some(v)
}

/// The octet written in `start..end` of `s`, as [`octet_field`] says.
fn octet_in(s: &[u8], start: usize, end: usize) -> (r: Option<u32>)
    requires
        start <= end <= s@.len(),
    ensures
        r == (match octet_field(s@.subrange(start as int, end as int)) {
            Some(v) => Some(v as u32),
            None => None,
        }),
        r is Some ==> r.unwrap() <= 255,
{
    if end - start > 1 && s[start] == 48 {
        assert(s@.subrange(start as int, end as int)[0] == 48);
        return None;
    }
    decimal_in(s, start, end, 3, 255)
}

/// The IPv4 address written in `start..end` of `s`, as [`parse_ipv4`] says.
fn ipv4_in(s: &[u8], start: usize, end: usize) -> (r: Option<u32>)
    requires
        start <= end <= s@.len(),
    ensures
        r == parse_ipv4(s@.subrange(start as int, end as int)),
{
    let ghost t = s@.subrange(start as int, end as int);
    let d1 = find_byte(s, start, end, 46);
    if d1 == end {
        return None;
    }
    let d2 = find_byte(s, d1 + 1, end, 46);
    let ghost k1 = (d1 - start) as int;
    let ghost r1 = t.subrange(k1 + 1, t.len() as int);
    assert(t.subrange(0, k1) =~= s@.subrange(start as int, d1 as int));
    assert(r1 =~= s@.subrange(d1 + 1, end as int));
    if d2 == end {
        return None;
    }
    let d3 = find_byte(s, d2 + 1, end, 46);
    let ghost k2 = (d2 - (d1 + 1)) as int;
    let ghost r2 = r1.subrange(k2 + 1, r1.len() as int);
    assert(r1.subrange(0, k2) =~= s@.subrange(d1 + 1, d2 as int));
    assert(r2 =~= s@.subrange(d2 + 1, end as int));
    if d3 == end {
        return None;
    }
    let ghost k3 = (d3 - (d2 + 1)) as int;
    assert(r2.subrange(0, k3) =~= s@.subrange(d2 + 1, d3 as int));
    assert(r2.subrange(k3 + 1, r2.len() as int) =~= s@.subrange(d3 + 1, end as int));
    let a = octet_in(s, start, d1);
    let b = octet_in(s, d1 + 1, d2);
    let c = octet_in(s, d2 + 1, d3);
    let d = octet_in(s, d3 + 1, end);
    match (a, b, c, d) {
        (Some(x), Some(y), Some(z), Some(w)) => Some(x * 16777216 + y * 65536 + z * 256 + w),
        _ => None,
    }
}

/// Reads an address written `a.b.c.d` or `a.b.c.d:port`; without a port the
/// default port is meant.
pub fn parse_address(text: &str) -> (r: Result<Address, ConfigError>)
    ensures
        r == (match address_of_bytes(text.spec_bytes()) {
            Some(a) => Ok(a),
            None => Err(ConfigError::ConfigurationError),
        }),
{
    reveal(address_of_bytes);
    let b = text.as_bytes();
    let n = b.len();
    assert(b@.subrange(0, n as int) =~= b@);
    let c = find_byte(b, 0, n, 58);
    if c == n {
        match ipv4_in(b, 0, n) {
            Some(ip) => Ok(Address { ip, port: DEFAULT_PORT }),
            None => Err(ConfigError::ConfigurationError),
        }
    } else {
        assert(b@.subrange(0, c as int) =~= b@.subrange(0, n as int).subrange(0, c as int));
        assert(b@.subrange(c + 1, n as int) =~= b@.subrange(0, n as int).subrange(
            c + 1,
            n as int,
        ));
        let host = ipv4_in(b, 0, c);
        let port = port_in(b, c + 1, n);
        match (host, port) {
            (Some(ip), Some(p)) => Ok(Address { ip, port: p as u16 }),
            _ => Err(ConfigError::ConfigurationError),
        }
    }
}

/// The addresses that the strings `addrs` write.
pub open spec fn addresses_written(addrs: Seq<&str>) -> Set<Address> {
    Set::new(
        |a: Address|
            exists|i: int| 0 <= i < addrs.len() && address_of_bytes(#[trigger] addrs[i].spec_bytes()) == Some(a),
    )
}

proof fn lemma_written_step(addrs: Seq<&str>, i: int, a: Address)
    requires
        0 <= i < addrs.len(),
        address_of_bytes(addrs[i].spec_bytes()) == Some(a),
    ensures
        addresses_written(addrs.subrange(0, i + 1)) == addresses_written(addrs.subrange(0, i)).insert(
            a,
        ),
{
    let p = addrs.subrange(0, i);
    let q = addrs.subrange(0, i + 1);
    assert forall|x: Address| addresses_written(q).contains(x) implies addresses_written(p).insert(
        a,
    ).contains(x) by {
        let j = choose|j: int|
            0 <= j < q.len() && address_of_bytes(#[trigger] q[j].spec_bytes()) == Some(x);
        if j < i {
            assert(p[j] == q[j]);
        }
    }
    assert forall|x: Address| addresses_written(p).insert(a).contains(x) implies addresses_written(
        q,
    ).contains(x) by {
        if x == a {
            assert(q[i] == addrs[i]);
        } else {
            let j = choose|j: int|
                0 <= j < p.len() && address_of_bytes(#[trigger] p[j].spec_bytes()) == Some(x);
            assert(p[j] == q[j]);
        }
    }
    assert(addresses_written(q) =~= addresses_written(p).insert(a));
}

impl Configuration {
    /// Well-formed: the addresses are strictly sorted.
    pub open spec fn wf(&self) -> bool {
        strictly_sorted(self@)
    }

    /// A configuration without replicas.
    pub fn empty() -> (r: Configuration)
        ensures
            r.wf(),
            r@ == Seq::<Address>::empty(),
    {
        Configuration { replicas: Vec::new() }
    }

    /// The configuration of the addresses that `addrs` write, sorted and each kept
    /// once. A string that is not an address is a `ConfigurationError`.
    pub fn new(addrs: Vec<&str>) -> (r: Result<Configuration, ConfigError>)
        ensures
            match r {
                Ok(c) => {
                    &&& c.wf()
                    &&& forall|i: int|
                        0 <= i < addrs@.len() ==> (#[trigger] address_of_bytes(
                            addrs@[i].spec_bytes(),
                        )) is Some
                    &&& c@.to_set() == addresses_written(addrs@)
                },
                Err(e) => {
                    &&& e == ConfigError::ConfigurationError
                    &&& exists|i: int|
                        0 <= i < addrs@.len() && (#[trigger] address_of_bytes(
                            addrs@[i].spec_bytes(),
                        )) is None
                },
            },
    {
        let mut c = Configuration::empty();
        let mut i: usize = 0;
        while i < addrs.len()
            invariant
                i <= addrs@.len(),
                c.wf(),
                forall|j: int| 0 <= j < i ==> (#[trigger] address_of_bytes(addrs@[j].spec_bytes())) is Some,
                c@.to_set() == addresses_written(addrs@.subrange(0, i as int)),
            decreases addrs@.len() - i,
        {
            let a = match parse_address(addrs[i]) {
                Ok(a) => a,
                Err(e) => {
                    return Err(e);
                },
            };
            let ghost before = c@.to_set();
            c.insert_sorted(a);
            proof {
                lemma_written_step(addrs@, i as int, a);
            }
            i = i + 1;
        }
        assert(addrs@.subrange(0, i as int) =~= addrs@);
        Ok(c)
    }

    /// Adds `new_entry` at its place in the order; an address already present is kept once.
    pub fn insert_sorted(&mut self, new_entry: Address)
        requires
            old(self).wf(),
        ensures
            final(self).wf(),
            final(self)@.to_set() == old(self)@.to_set().insert(new_entry),
    {
        let ghost s = self@;
        let mut i: usize = 0;
        while i < self.replicas.len()
            invariant
                self@ == s,
                strictly_sorted(s),
                i <= s.len(),
                forall|j: int| 0 <= j < i ==> addr_key(#[trigger] s[j]) < addr_key(new_entry),
            ensures
                i <= s.len(),
                i < s.len() ==> addr_key(new_entry) <= addr_key(s[i as int]),
                forall|j: int| 0 <= j < i ==> addr_key(#[trigger] s[j]) < addr_key(new_entry),
            decreases s.len() - i,
        {
            if addr_le(&new_entry, &self.replicas[i]) {
                break;
            }
            i = i + 1;
        }
        if i < self.replicas.len() && self.replicas[i] == new_entry {
            assert(s.to_set().insert(new_entry) =~= s.to_set()) by {
                assert(s.to_set().contains(s[i as int]));
            }
            return;
        }
        proof {
            if i < s.len() {
                assert(addr_key(new_entry) < addr_key(s[i as int]));
            }
        }
        self.replicas.insert(i, new_entry);
        let ghost t = self@;
        assert(t == s.insert(i as int, new_entry));
        assert forall|a: int, b: int| 0 <= a < b < t.len() implies addr_key(#[trigger] t[a]) < addr_key(
            #[trigger] t[b],
        ) by {
            if b < i {
            } else if b == i {
            } else if a < i {
                assert(t[b] == s[b - 1]);
                if i < s.len() {
                    assert(addr_key(s[i as int]) <= addr_key(s[b - 1]));
                }
            } else if a == i {
                assert(t[b] == s[b - 1]);
                assert(addr_key(s[i as int]) <= addr_key(s[b - 1]));
            } else {
                assert(t[a] == s[a - 1] && t[b] == s[b - 1]);
            }
        }
        assert forall|x: Address| t.to_set().contains(x) <==> s.to_set().insert(new_entry).contains(
            x,
        ) by {
            if t.to_set().contains(x) {
                let k = choose|k: int| 0 <= k < t.len() && t[k] == x;
                if k < i {
                    assert(s[k] == x);
                } else if k > i {
                    assert(s[k - 1] == x);
                }
            }
            if s.to_set().contains(x) {
                let k = choose|k: int| 0 <= k < s.len() && s[k] == x;
                if k < i {
                    assert(t[k] == x);
                } else {
                    assert(t[k + 1] == x);
                }
            }
            if x == new_entry {
                assert(t[i as int] == x);
            }
        }
        assert(t.to_set() =~= s.to_set().insert(new_entry));
    }

    /// The index of `addr`, if the configuration holds it.
    pub fn get_id(&self, addr: &Address) -> (r: Option<usize>)
        ensures
            match r {
                Some(i) => i < self@.len() && self@[i as int] == *addr,
                None => !self@.contains(*addr),
            },
    {
        let mut i: usize = 0;
        while i < self.replicas.len()
            invariant
                i <= self@.len(),
                forall|j: int| 0 <= j < i ==> #[trigger] self@[j] != *addr,
            decreases self@.len() - i,
        {
            if self.replicas[i] == *addr {
                return Some(i);
            }
            i = i + 1;
        }
        None
    }

    /// Takes `t` out of the configuration.
    pub fn remove(&mut self, t: &Address)
        requires
            old(self).wf(),
        ensures
            final(self).wf(),
            final(self)@.to_set() == old(self)@.to_set().remove(*t),
    {
        let ghost s = self@;
        match self.get_id(t) {
            None => {
                assert(s.to_set().remove(*t) =~= s.to_set());
            },
            Some(i) => {
                self.replicas.remove(i);
                let ghost u = self@;
                assert(u == s.remove(i as int));
                assert forall|a: int, b: int| 0 <= a < b < u.len() implies addr_key(#[trigger] u[a])
                    < addr_key(#[trigger] u[b]) by {
                    if b < i {
                    } else if a < i {
                        assert(u[b] == s[b + 1]);
                    } else {
                        assert(u[a] == s[a + 1] && u[b] == s[b + 1]);
                    }
                }
                assert forall|x: Address| u.to_set().contains(x) <==> s.to_set().remove(
                    *t,
                ).contains(x) by {
                    if u.to_set().contains(x) {
                        let k = choose|k: int| 0 <= k < u.len() && u[k] == x;
                        if k < i {
                            assert(s[k] == x);
                            assert(addr_key(s[k]) < addr_key(s[i as int]));
                        } else {
                            assert(s[k + 1] == x);
                            assert(addr_key(s[i as int]) < addr_key(s[k + 1]));
                        }
                    }
                    if s.to_set().remove(*t).contains(x) {
                        let k = choose|k: int| 0 <= k < s.len() && s[k] == x;
                        if k < i {
                            assert(u[k] == x);
                        } else {
                            assert(k != i);
                            assert(u[k - 1] == x);
                        }
                    }
                }
                assert(u.to_set() =~= s.to_set().remove(*t));
            },
        }
    }

    /// The address of replica `id`.
    pub fn find_addr(&self, id: ReplicaID) -> (r: Result<Address, ConfigError>)
        ensures
            match r {
                Ok(a) => id < self@.len() && a == self@[id as int],
                Err(e) => id >= self@.len() && e == ConfigError::UnknownReplica,
            },
    {
        if id < self.replicas.len() {
            Ok(self.replicas[id])
        } else {
            Err(ConfigError::UnknownReplica)
        }
    }

    /// Number of replicas.
    pub fn replica_count(&self) -> (r: usize)
        ensures
            r == self@.len(),
    {
        self.replicas.len()
    }

    /// The primary of `view_number`: replicas take turns, round-robin.
    pub fn primary_id(&self, view_number: ViewNumber) -> (r: ReplicaID)
        requires
            self@.len() > 0,
        ensures
            r as int == view_number as int % self@.len() as int,
            r < self@.len(),
    {
        let n = self.replicas.len();
        assert(usize::MAX <= u64::MAX);
        (view_number % (n as u64)) as usize
    }
}

} // verus!
