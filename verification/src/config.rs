//! The configuration record: the storage location, the network port, the pool
//! size and the nominal upload size limit, together with its on-disk codec.
//!
//! The configuration file is four lines in a fixed order, each `key = value`
//! terminated by a newline; the three numeric values are canonical decimal
//! numerals. `spec_parse` is the definition of the format; `parse_config`
//! implements it exactly, and the lemmas at the end show that it accepts
//! precisely the strings `render` produces from well-formed configurations.

use vstd::prelude::*;

use crate::codec::{
    append_bytes, dec_of, dec_val, find_nl, find_nl_exec, is_canon_dec, lemma_canon_dec_unique,
    lemma_dec_of_val, lemma_dec_val_nonneg, lemma_find_nl, lemma_find_nl_exact, parse_dec,
    starts_at, starts_at_exec, u64_to_dec, NL,
};

verus! {

/// The active configuration, immutable for the process lifetime once resolved.
#[derive(Debug)]
pub struct Config {
    /// Location of the database the pool connects to.
    pub database_url: Vec<u8>,
    /// TCP port the server binds on the local interface.
    pub port: u16,
    /// Maximum number of simultaneously checked-out pool connections.
    pub pool_size: u32,
    /// Nominal upload size limit for file payloads, in bytes.
    pub max_filesize: u64,
}

/// The mathematical model of a configuration.
pub ghost struct ConfigView {
    pub database_url: Seq<u8>,
    pub port: u16,
    pub pool_size: u32,
    pub max_filesize: u64,
}

impl View for Config {
    type V = ConfigView;

    open spec fn view(&self) -> ConfigView {
        ConfigView {
            database_url: self.database_url@,
            port: self.port,
            pool_size: self.pool_size,
            max_filesize: self.max_filesize,
        }
    }
}

impl ConfigView {
    /// A configuration is well formed when the pool holds at least one
    /// connection and the storage location fits on a single line.
    pub open spec fn wf(self) -> bool {
        &&& self.pool_size >= 1
        &&& forall|i: int| 0 <= i < self.database_url.len() ==> self.database_url[i] != NL
    }
}

impl Config {
    /// Well-formedness of the executable record, via its model.
    pub open spec fn wf(&self) -> bool {
        self@.wf()
    }
}

/// The `url = ` line prefix.
pub open spec fn key_url() -> Seq<u8> {
    seq![117u8, 114u8, 108u8, 32u8, 61u8, 32u8]
}

/// The `port = ` line prefix.
pub open spec fn key_port() -> Seq<u8> {
    seq![112u8, 111u8, 114u8, 116u8, 32u8, 61u8, 32u8]
}

/// The `pool = ` line prefix.
pub open spec fn key_pool() -> Seq<u8> {
    seq![112u8, 111u8, 111u8, 108u8, 32u8, 61u8, 32u8]
}

/// The `max = ` line prefix.
pub open spec fn key_max() -> Seq<u8> {
    seq![109u8, 97u8, 120u8, 32u8, 61u8, 32u8]
}

/// The on-disk form of a configuration: four `key = value` lines.
pub open spec fn render(v: ConfigView) -> Seq<u8> {
    key_url() + v.database_url + seq![NL] + key_port() + dec_of(v.port as int) + seq![NL]
        + key_pool() + dec_of(v.pool_size as int) + seq![NL] + key_max() + dec_of(
        v.max_filesize as int,
    ) + seq![NL]
}

/// One numeric line of the format: the key at `pos`, then a canonical decimal
/// numeral up to the next newline, its value at most `limit`. On success,
/// the value and the position right after the newline.
pub open spec fn spec_num_line(s: Seq<u8>, pos: int, key: Seq<u8>, limit: int) -> Option<
    (int, int),
> {
    if !starts_at(s, pos, key) {
        None
    } else {
        let d0 = pos + key.len();
        let d1 = find_nl(s, d0);
        if d1 >= s.len() {
            None
        } else {
            let num = s.subrange(d0, d1);
            if is_canon_dec(num) && dec_val(num) <= limit {
                Some((dec_val(num), d1 + 1))
            } else {
                None
            }
        }
    }
}

/// The configuration format: what a configuration file means, if anything.
pub open spec fn spec_parse(s: Seq<u8>) -> Option<ConfigView> {
    if !starts_at(s, 0, key_url()) {
        None
    } else {
        let u1 = find_nl(s, key_url().len() as int);
        if u1 >= s.len() {
            None
        } else {
            let url = s.subrange(key_url().len() as int, u1);
            match spec_num_line(s, u1 + 1, key_port(), 65535) {
                None => None,
                Some((port, p2)) => match spec_num_line(s, p2, key_pool(), 4294967295) {
                    None => None,
                    Some((pool, p3)) => if pool == 0 {
                        None
                    } else {
                        match spec_num_line(s, p3, key_max(), u64::MAX as int) {
                            None => None,
                            Some((max, p4)) => if p4 != s.len() {
                                None
                            } else {
                                Some(
                                    ConfigView {
                                        database_url: url,
                                        port: port as u16,
                                        pool_size: pool as u32,
                                        max_filesize: max as u64,
                                    },
                                )
                            },
                        }
                    },
                },
            }
        }
    }
}

/// The configuration written on first run: a local database file beside the
/// configuration, a local port, a small pool, and a ten-megabyte upload limit.
pub open spec fn default_view() -> ConfigView {
    ConfigView {
        database_url: seq![102u8, 105u8, 108u8, 105u8, 116u8, 101u8, 46u8, 100u8, 98u8],
        port: 8080,
        pool_size: 4,
        max_filesize: 10000000,
    }
}

/// The fixed configuration used in debug runs, which never touches disk.
pub open spec fn debug_view() -> ConfigView {
    ConfigView {
        database_url: seq![116u8, 101u8, 115u8, 116u8, 46u8, 100u8, 98u8],
        port: 8080,
        pool_size: 4,
        max_filesize: 10000000,
    }
}

impl Config {
    /// The configuration written to disk on first run (`filite.db`).
    pub fn default_config() -> (r: Config)
        ensures
            r@ == default_view(),
            r.wf(),
    {
        let mut url: Vec<u8> = Vec::new();
        url.push(102);
        url.push(105);
        url.push(108);
        url.push(105);
        url.push(116);
        url.push(101);
        url.push(46);
        url.push(100);
        url.push(98);
        proof {
            assert(url@ =~= default_view().database_url);
        }
        Config { database_url: url, port: 8080, pool_size: 4, max_filesize: 10000000 }
    }

    /// The fixed debug-mode configuration (`test.db`), resolved without disk.
    pub fn debug_config() -> (r: Config)
        ensures
            r@ == debug_view(),
            r.wf(),
    {
        let mut url: Vec<u8> = Vec::new();
        url.push(116);
        url.push(101);
        url.push(115);
        url.push(116);
        url.push(46);
        url.push(100);
        url.push(98);
        proof {
            assert(url@ =~= debug_view().database_url);
        }
        Config { database_url: url, port: 8080, pool_size: 4, max_filesize: 10000000 }
    }
}

/// The wire-level upload cutoff: the nominal limit inflated by the fixed
/// safety margin of 37 percent, saturating at the largest byte count.
pub open spec fn spec_inflated_limit(m: u64) -> int {
    if m * 137 / 100 > u64::MAX {
        u64::MAX as int
    } else {
        m * 137 / 100
    }
}

/// Computes the inflated wire-level cutoff for a nominal limit.
pub fn inflated_limit(max: u64) -> (r: u64)
    ensures
        r == spec_inflated_limit(max),
{
    let wide: u128 = (max as u128) * 137 / 100;
    if wide > (u64::MAX as u128) {
        u64::MAX
    } else {
        wide as u64
    }
}

/// Why a configuration file was rejected.
#[derive(Clone, Copy, PartialEq, Eq, Structural, Debug)]
pub enum ConfigError {
    /// A `key = ` prefix is missing or misspelled.
    BadKey,
    /// A line is unterminated or the file ends too early or too late.
    BadShape,
    /// A numeric field is not a canonical decimal or is out of range.
    BadNumber,
}

fn key_url_bytes() -> (r: Vec<u8>)
    ensures
        r@ == key_url(),
{
    let mut v: Vec<u8> = Vec::new();
    v.push(117);
    v.push(114);
    v.push(108);
    v.push(32);
    v.push(61);
    v.push(32);
    proof {
        assert(v@ =~= key_url());
    }
    v
}

fn key_port_bytes() -> (r: Vec<u8>)
    ensures
        r@ == key_port(),
{
    let mut v: Vec<u8> = Vec::new();
    v.push(112);
    v.push(111);
    v.push(114);
    v.push(116);
    v.push(32);
    v.push(61);
    v.push(32);
    proof {
        assert(v@ =~= key_port());
    }
    v
}

fn key_pool_bytes() -> (r: Vec<u8>)
    ensures
        r@ == key_pool(),
{
    let mut v: Vec<u8> = Vec::new();
    v.push(112);
    v.push(111);
    v.push(111);
    v.push(108);
    v.push(32);
    v.push(61);
    v.push(32);
    proof {
        assert(v@ =~= key_pool());
    }
    v
}

fn key_max_bytes() -> (r: Vec<u8>)
    ensures
        r@ == key_max(),
{
    let mut v: Vec<u8> = Vec::new();
    v.push(109);
    v.push(97);
    v.push(120);
    v.push(32);
    v.push(61);
    v.push(32);
    proof {
        assert(v@ =~= key_max());
    }
    v
}

/// Writes one `key = value` line, value being a decimal numeral.
fn push_num_line(out: &mut Vec<u8>, key: Vec<u8>, n: u64)
    ensures
        final(out)@ == old(out)@ + key@ + dec_of(n as int) + seq![NL],
{
    append_bytes(out, &key);
    let digits = u64_to_dec(n);
    append_bytes(out, &digits);
    out.push(NL);
    proof {
        assert(old(out)@ + key@ + dec_of(n as int) + seq![NL] =~= ((old(out)@ + key@) + dec_of(
            n as int,
        )).push(NL));
    }
}

/// The exact file contents for a configuration: `render` of its model.
pub fn render_config(c: &Config) -> (r: Vec<u8>)
    ensures
        r@ == render(c@),
{
    let mut out: Vec<u8> = Vec::new();
    let ku = key_url_bytes();
    append_bytes(&mut out, &ku);
    append_bytes(&mut out, &c.database_url);
    out.push(NL);
    push_num_line(&mut out, key_port_bytes(), c.port as u64);
    push_num_line(&mut out, key_pool_bytes(), c.pool_size as u64);
    push_num_line(&mut out, key_max_bytes(), c.max_filesize);
    proof {
        assert(out@ =~= render(c@));
    }
    out
}

/// Parses one numeric line, exactly as `spec_num_line` reads it.
fn parse_num_line(s: &Vec<u8>, pos: usize, key: Vec<u8>, limit: u64) -> (r: Result<
    (u64, usize),
    ConfigError,
>)
    requires
        pos <= s@.len(),
    ensures
        match r {
            Ok((v, next)) => spec_num_line(s@, pos as int, key@, limit as int) == Some(
                (v as int, next as int),
            ) && next <= s@.len(),
            Err(_) => spec_num_line(s@, pos as int, key@, limit as int) is None,
        },
{
    if !starts_at_exec(s, pos, &key) {
        return Err(ConfigError::BadKey);
    }
    let slen: usize = s.len();
    proof {
        assert(pos + key@.len() <= slen);
    }
    let d0 = pos + key.len();
    let d1 = find_nl_exec(s, d0);
    proof {
        lemma_find_nl(s@, d0 as int);
    }
    if d1 >= s.len() {
        return Err(ConfigError::BadShape);
    }
    match parse_dec(s, d0, d1) {
        None => Err(ConfigError::BadNumber),
        Some(v) => {
            if v > limit {
                Err(ConfigError::BadNumber)
            } else {
                Ok((v, d1 + 1))
            }
        },
    }
}

/// Parses a configuration file: succeeds exactly on the strings that `render`
/// produces from a well-formed configuration, and then returns that
/// configuration.
pub fn parse_config(s: &Vec<u8>) -> (r: Result<Config, ConfigError>)
    ensures
        match r {
            Ok(c) => c@.wf() && s@ == render(c@) && spec_parse(s@) == Some(c@),
            Err(_) => spec_parse(s@) is None && (forall|v: ConfigView| v.wf() ==> s@ != render(v)),
        },
{
    match parse_config_inner(s) {
        Ok(c) => {
            proof {
                lemma_parse_renders(s@, c@);
            }
            Ok(c)
        },
        Err(e) => {
            proof {
                assert forall|v: ConfigView| v.wf() implies s@ != render(v) by {
                    if s@ == render(v) {
                        lemma_render_parses(v);
                    }
                }
            }
            Err(e)
        },
    }
}

/// Parses a configuration file against `spec_parse`, stage by stage.
fn parse_config_inner(s: &Vec<u8>) -> (r: Result<Config, ConfigError>)
    ensures
        match r {
            Ok(c) => spec_parse(s@) == Some(c@),
            Err(_) => spec_parse(s@) is None,
        },
{
    let ku = key_url_bytes();
    if !starts_at_exec(s, 0, &ku) {
        return Err(ConfigError::BadKey);
    }
    let u0: usize = 6;
    let u1 = find_nl_exec(s, u0);
    proof {
        lemma_find_nl(s@, u0 as int);
    }
    if u1 >= s.len() {
        return Err(ConfigError::BadShape);
    }
    let mut url: Vec<u8> = Vec::new();
    let mut i: usize = u0;
    while i < u1
        invariant
            u0 <= i <= u1 < s@.len(),
            url@ == s@.subrange(u0 as int, i as int),
        decreases u1 - i,
    {
        url.push(s[i]);
        proof {
            assert(s@.subrange(u0 as int, i + 1) =~= s@.subrange(u0 as int, i as int).push(
                s@[i as int],
            ));
        }
        i += 1;
    }
    let p1 = u1 + 1;
    let (port, p2) = match parse_num_line(s, p1, key_port_bytes(), 65535) {
        Ok(x) => x,
        Err(e) => {
            return Err(e);
        },
    };
    let (pool, p3) = match parse_num_line(s, p2, key_pool_bytes(), 4294967295) {
        Ok(x) => x,
        Err(e) => {
            return Err(e);
        },
    };
    if pool == 0 {
        return Err(ConfigError::BadNumber);
    }
    let (max, p4) = match parse_num_line(s, p3, key_max_bytes(), u64::MAX) {
        Ok(x) => x,
        Err(e) => {
            return Err(e);
        },
    };
    if p4 != s.len() {
        return Err(ConfigError::BadShape);
    }
    let c = Config {
        database_url: url,
        port: port as u16,
        pool_size: pool as u32,
        max_filesize: max,
    };
    Ok(c)
}

/// The codec round trip: the file written for a well-formed configuration is
/// accepted by the parser, and denotes exactly that configuration. A valid
/// configuration file therefore starts the server with the settings it spells
/// out.
#[verifier::rlimit(60)]
pub proof fn lemma_render_parses(v: ConfigView)
    requires
        v.wf(),
    ensures
        spec_parse(render(v)) == Some(v),
{
    let s = render(v);
    let ku = key_url();
    let kp = key_port();
    let kl = key_pool();
    let km = key_max();
    let url = v.database_url;
    let dport = dec_of(v.port as int);
    let dpool = dec_of(v.pool_size as int);
    let dmax = dec_of(v.max_filesize as int);
    lemma_dec_of_val(v.port as int);
    lemma_dec_of_val(v.pool_size as int);
    lemma_dec_of_val(v.max_filesize as int);

    let u0 = ku.len() as int;
    let u1 = u0 + url.len();
    let p1 = u1 + 1;
    let d0 = p1 + kp.len();
    let d1 = d0 + dport.len();
    let q1 = d1 + 1;
    let e0 = q1 + kl.len();
    let e1 = e0 + dpool.len();
    let m1 = e1 + 1;
    let f0 = m1 + km.len();
    let f1 = f0 + dmax.len();
    assert(s.len() == f1 + 1);

    assert(s.subrange(0, u0) =~= ku);
    assert(s.subrange(u0, u1) =~= url);
    assert(s[u1] == NL);
    assert(s.subrange(p1, d0) =~= kp);
    assert(s.subrange(d0, d1) =~= dport);
    assert(s[d1] == NL);
    assert(s.subrange(q1, e0) =~= kl);
    assert(s.subrange(e0, e1) =~= dpool);
    assert(s[e1] == NL);
    assert(s.subrange(m1, f0) =~= km);
    assert(s.subrange(f0, f1) =~= dmax);
    assert(s[f1] == NL);

    assert(starts_at(s, 0, ku));
    assert forall|i: int| u0 <= i < u1 implies s[i] != NL by {
        assert(s.subrange(u0, u1)[i - u0] == s[i]);
        assert(url[i - u0] != NL);
    }
    lemma_find_nl_exact(s, u0, u1);

    assert(starts_at(s, p1, kp));
    assert forall|i: int| d0 <= i < d1 implies s[i] != NL by {
        assert(s.subrange(d0, d1)[i - d0] == s[i]);
        assert(48 <= dport[i - d0] <= 57);
    }
    lemma_find_nl_exact(s, d0, d1);
    assert(spec_num_line(s, p1, kp, 65535) == Some((v.port as int, q1)));

    assert(starts_at(s, q1, kl));
    assert forall|i: int| e0 <= i < e1 implies s[i] != NL by {
        assert(s.subrange(e0, e1)[i - e0] == s[i]);
        assert(48 <= dpool[i - e0] <= 57);
    }
    lemma_find_nl_exact(s, e0, e1);
    assert(spec_num_line(s, q1, kl, 4294967295) == Some((v.pool_size as int, m1)));

    assert(starts_at(s, m1, km));
    assert forall|i: int| f0 <= i < f1 implies s[i] != NL by {
        assert(s.subrange(f0, f1)[i - f0] == s[i]);
        assert(48 <= dmax[i - f0] <= 57);
    }
    lemma_find_nl_exact(s, f0, f1);
    assert(spec_num_line(s, m1, km, u64::MAX as int) == Some((v.max_filesize as int, f1 + 1)));

    assert(spec_parse(s) == Some(
        ConfigView {
            database_url: s.subrange(u0, u1),
            port: v.port,
            pool_size: v.pool_size,
            max_filesize: v.max_filesize,
        },
    ));
}

/// The codec is exact the other way too: a file the parser accepts is, byte
/// for byte, the rendering of the configuration it denotes. Together with
/// `lemma_render_parses` this says the format accepts exactly the renderings
/// of well-formed configurations.
#[verifier::rlimit(100)]
pub proof fn lemma_parse_renders(s: Seq<u8>, v: ConfigView)
    requires
        spec_parse(s) == Some(v),
    ensures
        v.wf(),
        s == render(v),
{
    let ku = key_url();
    let kp = key_port();
    let kl = key_pool();
    let km = key_max();
    let u0 = ku.len() as int;
    let u1 = find_nl(s, u0);
    lemma_find_nl(s, u0);
    let url = s.subrange(u0, u1);
    let p1 = u1 + 1;
    let d0 = p1 + kp.len();
    let d1 = find_nl(s, d0);
    lemma_find_nl(s, d0);
    let num1 = s.subrange(d0, d1);
    let q1 = d1 + 1;
    let e0 = q1 + kl.len();
    let e1 = find_nl(s, e0);
    lemma_find_nl(s, e0);
    let num2 = s.subrange(e0, e1);
    let m1 = e1 + 1;
    let f0 = m1 + km.len();
    let f1 = find_nl(s, f0);
    lemma_find_nl(s, f0);
    let num3 = s.subrange(f0, f1);

    assert(spec_num_line(s, p1, kp, 65535) is Some);
    assert(spec_num_line(s, q1, kl, 4294967295) is Some);
    assert(spec_num_line(s, m1, km, u64::MAX as int) is Some);
    assert(f1 + 1 == s.len());

    lemma_dec_val_nonneg(num1);
    lemma_dec_val_nonneg(num2);
    lemma_dec_val_nonneg(num3);
    lemma_canon_dec_unique(num1);
    lemma_canon_dec_unique(num2);
    lemma_canon_dec_unique(num3);
    assert(v.database_url == url);
    assert(v.port as int == dec_val(num1));
    assert(v.pool_size as int == dec_val(num2));
    assert(v.max_filesize as int == dec_val(num3));
    assert(dec_of(v.port as int) == num1);
    assert(dec_of(v.pool_size as int) == num2);
    assert(dec_of(v.max_filesize as int) == num3);

    assert(v.wf()) by {
        assert(forall|i: int| 0 <= i < url.len() ==> url[i] == s[u0 + i] && s[u0 + i] != NL);
    }

    let r = render(v);
    assert(r.len() == u0 + url.len() + 1 + kp.len() + num1.len() + 1 + kl.len() + num2.len() + 1
        + km.len() + num3.len() + 1);
    assert(s.len() == r.len());
    assert forall|i: int| 0 <= i < s.len() implies s[i] == r[i] by {
        if i < u0 {
            assert(s.subrange(0, u0)[i] == s[i]);
        } else if i < u1 {
            assert(s.subrange(u0, u1)[i - u0] == s[i]);
        } else if i == u1 {
        } else if i < d0 {
            assert(s.subrange(p1, p1 + kp.len())[i - p1] == s[i]);
        } else if i < d1 {
            assert(s.subrange(d0, d1)[i - d0] == s[i]);
        } else if i == d1 {
        } else if i < e0 {
            assert(s.subrange(q1, q1 + kl.len())[i - q1] == s[i]);
        } else if i < e1 {
            assert(s.subrange(e0, e1)[i - e0] == s[i]);
        } else if i == e1 {
        } else if i < f0 {
            assert(s.subrange(m1, m1 + km.len())[i - m1] == s[i]);
        } else if i < f1 {
            assert(s.subrange(f0, f1)[i - f0] == s[i]);
        } else {
            assert(i == f1);
        }
    }
    assert(s =~= r);
}

} // verus!
