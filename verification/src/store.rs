//! Persisted configuration store.
//!
//! One configuration value lives under a namespace derived from a stable
//! type identifier and a key that defaults to a fixed sentinel.  The value
//! is a length-prefixed serialization of [`NetConfig`] with an exact codec
//! specification and a proved round trip; a blob that does not decode is
//! treated as absent, so corrupt persisted state heals itself by forcing
//! provisioning.

use vstd::prelude::*;

verus! {

use vstd::bytes::{spec_u64_to_le_bytes, spec_u64_from_le_bytes, u64_to_le_bytes,
    u64_from_le_bytes, lemma_auto_spec_u64_to_from_le_bytes};
use vstd::string::StrSliceExecFns;
use vstd::utf8::{encode_utf8, valid_utf8, decode_utf8, encode_utf8_valid_utf8,
    encode_utf8_decode_utf8};
use crate::bupt::BuptAccount;
use crate::net::{NetConfig, Wifi};
use crate::text::{bytes_eq, bytes_to_string, dec_digits, sub_bytes, u64_to_dec};

/// The mathematical shadow of a configuration: its variant and the
/// character content of its fields.
pub enum ConfigModel {
    Portal { username: Seq<char>, password: Seq<char> },
    Normal { ssid: Seq<char>, password: Seq<char> },
}

/// The model a configuration value denotes.
pub open spec fn config_model(c: NetConfig) -> ConfigModel {
    match c {
        NetConfig::BuptPortal(a) => ConfigModel::Portal {
            username: a.username@,
            password: a.password@,
        },
        NetConfig::NormalWifi(w) => ConfigModel::Normal {
            ssid: w.ssid@,
            password: w.password@,
        },
    }
}

/// A length-prefixed string: eight little-endian length bytes, then the
/// UTF-8 bytes themselves.
pub open spec fn encode_str_spec(s: Seq<char>) -> Seq<u8> {
    spec_u64_to_le_bytes(encode_utf8(s).len() as u64) + encode_utf8(s)
}

/// The serialization of a configuration: a variant tag byte, then its two
/// strings length-prefixed.
pub open spec fn encode_model(m: ConfigModel) -> Seq<u8> {
    match m {
        ConfigModel::Portal { username, password } => seq![0u8] + encode_str_spec(username)
            + encode_str_spec(password),
        ConfigModel::Normal { ssid, password } => seq![1u8] + encode_str_spec(ssid)
            + encode_str_spec(password),
    }
}

/// Reads one length-prefixed string at `pos`: the decoded characters and
/// the position after them, or `None` when the bytes do not reach or do
/// not decode.
pub open spec fn read_str_at(b: Seq<u8>, pos: int) -> Option<(Seq<char>, int)> {
    if pos + 8 > b.len() {
        None
    } else {
        let n = spec_u64_from_le_bytes(b.subrange(pos, pos + 8)) as int;
        if pos + 8 + n > b.len() {
            None
        } else {
            let bytes = b.subrange(pos + 8, pos + 8 + n);
            if valid_utf8(bytes) {
                Some((decode_utf8(bytes), pos + 8 + n))
            } else {
                None
            }
        }
    }
}

/// What a blob deserializes to: the model it encodes, or `None` for every
/// byte string that is not exactly an encoded configuration.
pub open spec fn decode_model(b: Seq<u8>) -> Option<ConfigModel> {
    if b.len() < 1 {
        None
    } else {
        let tag = b[0];
        if tag != 0 && tag != 1 {
            None
        } else {
            match read_str_at(b, 1) {
                None => None,
                Some((s1, p1)) => match read_str_at(b, p1) {
                    None => None,
                    Some((s2, p2)) => if p2 != b.len() {
                        None
                    } else if tag == 0 {
                        Some(ConfigModel::Portal { username: s1, password: s2 })
                    } else {
                        Some(ConfigModel::Normal { ssid: s1, password: s2 })
                    },
                },
            }
        }
    }
}

fn push_str_encoded(out: &mut Vec<u8>, s: &String)
    ensures
        final(out)@ == old(out)@ + encode_str_spec(s@),
{
    let bytes = s.as_str().as_bytes_vec();
    let mut lenb = u64_to_le_bytes(bytes.len() as u64);
    out.append(&mut lenb);
    let mut bts = bytes;
    out.append(&mut bts);
    proof {
        assert(out@ =~= old(out)@ + encode_str_spec(s@));
    }
}

/// Serializes a configuration.
pub fn encode_config(c: &NetConfig) -> (r: Vec<u8>)
    ensures
        r@ == encode_model(config_model(*c)),
{
    let mut out: Vec<u8> = Vec::new();
    match c {
        NetConfig::BuptPortal(a) => {
            out.push(0);
            push_str_encoded(&mut out, &a.username);
            push_str_encoded(&mut out, &a.password);
        },
        NetConfig::NormalWifi(w) => {
            out.push(1);
            push_str_encoded(&mut out, &w.ssid);
            push_str_encoded(&mut out, &w.password);
        },
    }
    proof {
        assert(out@ =~= encode_model(config_model(*c)));
    }
    out
}

fn read_string_at(b: &Vec<u8>, pos: usize) -> (r: Option<(String, usize)>)
    requires
        pos <= b@.len(),
    ensures
        match r {
            Some(sp) => read_str_at(b@, pos as int) matches Some(pair) && pair.0 == sp.0@ && pair.1
                == sp.1,
            None => read_str_at(b@, pos as int) is None,
        },
{
    if b.len() - pos < 8 {
        return None;
    }
    let lenb = sub_bytes(b, pos, pos + 8);
    let n64 = u64_from_le_bytes(lenb.as_slice());
    let remaining = (b.len() - pos - 8) as u64;
    if n64 > remaining {
        return None;
    }
    let n = n64 as usize;
    let bytes = sub_bytes(b, pos + 8, pos + 8 + n);
    match bytes_to_string(bytes) {
        None => None,
        Some(s) => Some((s, pos + 8 + n)),
    }
}

/// Deserializes a blob, yielding `None` for anything that is not exactly
/// an encoded configuration.
pub fn decode_config(b: &Vec<u8>) -> (r: Option<NetConfig>)
    ensures
        match r {
            Some(c) => decode_model(b@) == Some(config_model(c)),
            None => decode_model(b@) is None,
        },
{
    if b.len() < 1 {
        return None;
    }
    let tag = b[0];
    if tag > 1 {
        return None;
    }
    let first = read_string_at(b, 1);
    let (s1, p1) = match first {
        None => {
            return None;
        },
        Some(x) => x,
    };
    let second = read_string_at(b, p1);
    let (s2, p2) = match second {
        None => {
            return None;
        },
        Some(x) => x,
    };
    if p2 != b.len() {
        return None;
    }
    if tag == 0 {
        Some(NetConfig::BuptPortal(BuptAccount { username: s1, password: s2 }))
    } else {
        Some(NetConfig::NormalWifi(Wifi { ssid: s1, password: s2 }))
    }
}

proof fn lemma_read_str_at_encoded(prefix: Seq<u8>, s: Seq<char>, suffix: Seq<u8>)
    requires
        encode_utf8(s).len() <= u64::MAX,
    ensures
        ({
            let b = prefix + encode_str_spec(s) + suffix;
            read_str_at(b, prefix.len() as int) == Some(
                (s, prefix.len() + 8 + encode_utf8(s).len() as int),
            )
        }),
{
    broadcast use encode_utf8_valid_utf8, encode_utf8_decode_utf8;

    let b = prefix + encode_str_spec(s) + suffix;
    let pos = prefix.len() as int;
    let e = encode_utf8(s);
    lemma_auto_spec_u64_to_from_le_bytes();
    assert(b.subrange(pos, pos + 8) =~= spec_u64_to_le_bytes(e.len() as u64));
    assert(spec_u64_from_le_bytes(b.subrange(pos, pos + 8)) == e.len() as u64);
    assert(b.subrange(pos + 8, pos + 8 + e.len()) =~= e);
}

/// Law: deserializing a serialized configuration yields it back.
pub proof fn lemma_codec_roundtrip(m: ConfigModel)
    requires
        match m {
            ConfigModel::Portal { username, password } => encode_utf8(username).len() <= u64::MAX
                && encode_utf8(password).len() <= u64::MAX,
            ConfigModel::Normal { ssid, password } => encode_utf8(ssid).len() <= u64::MAX
                && encode_utf8(password).len() <= u64::MAX,
        },
    ensures
        decode_model(encode_model(m)) == Some(m),
{
    lemma_auto_spec_u64_to_from_le_bytes();
    let b = encode_model(m);
    match m {
        ConfigModel::Portal { username, password } => {
            let e1 = encode_str_spec(username);
            let e2 = encode_str_spec(password);
            assert(b =~= (seq![0u8] + e1) + e2 + Seq::<u8>::empty());
            assert(b[0] == 0);
            lemma_read_str_at_encoded(seq![0u8], username, e2);
            lemma_read_str_at_encoded(seq![0u8] + e1, password, Seq::<u8>::empty());
            assert((seq![0u8] + e1) + encode_str_spec(password) + Seq::<u8>::empty() =~= b);
        },
        ConfigModel::Normal { ssid, password } => {
            let e1 = encode_str_spec(ssid);
            let e2 = encode_str_spec(password);
            assert(b =~= seq![1u8] + e1 + e2);
            assert(b[0] == 1);
            lemma_read_str_at_encoded(seq![1u8], ssid, e2);
            lemma_read_str_at_encoded(seq![1u8] + e1, password, Seq::<u8>::empty());
            assert((seq![1u8] + e1) + encode_str_spec(password) + Seq::<u8>::empty() =~= b);
        },
    }
}

/// A name for what `twox_hash::XxHash64::oneshot` with seed 0 returns of a
/// byte string.
pub uninterp spec fn xxhash64_of(data: Seq<u8>) -> u64;

/// Relies on `twox_hash::XxHash64::oneshot` with seed 0: the digest is a
/// function of the bytes alone.
#[verifier::external_body]
fn xxhash64(data: &Vec<u8>) -> (r: u64)
    ensures
        r == xxhash64_of(data@),
{
    twox_hash::XxHash64::oneshot(0, data.as_slice())
}

/// The namespace a type identifier maps to: the decimal digits of its
/// hash, cut to at most fifteen.
pub open spec fn namespace_spec(name: Seq<u8>) -> Seq<u8> {
    let d = dec_digits(xxhash64_of(name) as nat);
    if d.len() <= 15 {
        d
    } else {
        d.take(15)
    }
}

/// Derives the storage namespace for a type identifier.
pub fn namespace_for(name: &Vec<u8>) -> (r: Vec<u8>)
    ensures
        r@ == namespace_spec(name@),
{
    let h = xxhash64(name);
    let d = u64_to_dec(h);
    if d.len() <= 15 {
        d
    } else {
        let r = sub_bytes(&d, 0, 15);
        proof {
            assert(d@.subrange(0, 15) =~= d@.take(15));
        }
        r
    }
}

/// The identifier under which the network configuration is stored.
pub open spec fn config_type_name() -> Seq<u8> {
    encode_utf8("NetConfig"@)
}

/// The namespace of the network configuration.
pub open spec fn config_namespace() -> Seq<u8> {
    namespace_spec(config_type_name())
}

/// The sentinel key a configuration is stored under when the caller names
/// none.
pub open spec fn default_key() -> Seq<u8> {
    encode_utf8("__default"@)
}

struct StoreEntry {
    namespace: Vec<u8>,
    key: Vec<u8>,
    blob: Vec<u8>,
}

/// The persisted blob store: a map from namespace and key to blob, held
/// in memory and handed to whatever medium carries it across boots.
pub struct ConfigStore {
    entries: Vec<StoreEntry>,
}

/// The map a sequence of entries denotes; a later entry overrides an
/// earlier one under the same namespace and key.
spec fn entries_map(entries: Seq<StoreEntry>) -> Map<(Seq<u8>, Seq<u8>), Seq<u8>>
    decreases entries.len(),
{
    if entries.len() == 0 {
        Map::empty()
    } else {
        let last = entries.last();
        entries_map(entries.drop_last()).insert((last.namespace@, last.key@), last.blob@)
    }
}

impl ConfigStore {
    /// What the store holds, as a map from namespace and key to blob.
    pub closed spec fn contents(self) -> Map<(Seq<u8>, Seq<u8>), Seq<u8>> {
        entries_map(self.entries@)
    }

    /// An empty store.
    pub fn new() -> (r: Self)
        ensures
            r.contents() == Map::<(Seq<u8>, Seq<u8>), Seq<u8>>::empty(),
    {
        ConfigStore { entries: Vec::new() }
    }

    /// Stores a blob under a namespace and key, replacing what was there.
    pub fn set_blob(&mut self, ns: &Vec<u8>, key: &Vec<u8>, blob: Vec<u8>)
        ensures
            final(self).contents() == old(self).contents().insert((ns@, key@), blob@),
    {
        let e = StoreEntry {
            namespace: sub_bytes(ns, 0, ns.len()),
            key: sub_bytes(key, 0, key.len()),
            blob,
        };
        proof {
            assert(ns@.subrange(0, ns@.len() as int) =~= ns@);
            assert(key@.subrange(0, key@.len() as int) =~= key@);
        }
        self.entries.push(e);
        proof {
            assert(self.entries@.drop_last() =~= old(self).entries@);
        }
    }

    /// Hands back the blob under a namespace and key, if one is stored.
    pub fn get_blob(&self, ns: &Vec<u8>, key: &Vec<u8>) -> (r: Option<Vec<u8>>)
        ensures
            match r {
                Some(v) => self.contents().dom().contains((ns@, key@)) && self.contents()[
                    (ns@, key@)
                ] == v@,
                None => !self.contents().dom().contains((ns@, key@)),
            },
    {
        let n = self.entries.len();
        let mut i: usize = n;
        proof {
            assert(self.entries@.take(n as int) =~= self.entries@);
        }
        while i > 0
            invariant
                i <= n,
                n == self.entries@.len(),
                ({
                    let full = entries_map(self.entries@);
                    let part = entries_map(self.entries@.take(i as int));
                    full.dom().contains((ns@, key@)) == part.dom().contains((ns@, key@))
                        && (part.dom().contains((ns@, key@)) ==> full[(ns@, key@)] == part[
                        (ns@, key@)
                    ])
                }),
            decreases i,
        {
            proof {
                assert(self.entries@.take(i as int).drop_last() =~= self.entries@.take(i - 1));
                assert(self.entries@.take(i as int).last() == self.entries@[i - 1]);
            }
            let e = &self.entries[i - 1];
            if bytes_eq(&e.namespace, ns) && bytes_eq(&e.key, key) {
                let v = sub_bytes(&e.blob, 0, e.blob.len());
                proof {
                    assert(e.blob@.subrange(0, e.blob@.len() as int) =~= e.blob@);
                }
                return Some(v);
            }
            i -= 1;
        }
        proof {
            assert(self.entries@.take(0) =~= Seq::<StoreEntry>::empty());
        }
        None
    }

    /// Removes whatever is stored under a namespace and key, and says
    /// whether anything was.
    pub fn remove_blob(&mut self, ns: &Vec<u8>, key: &Vec<u8>) -> (r: bool)
        ensures
            final(self).contents() == old(self).contents().remove((ns@, key@)),
            r == old(self).contents().dom().contains((ns@, key@)),
    {
        let n = self.entries.len();
        let mut out: Vec<StoreEntry> = Vec::new();
        let mut found = false;
        let mut i: usize = 0;
        proof {
            assert(self.entries@.take(0) =~= Seq::<StoreEntry>::empty());
            assert(entries_map(Seq::<StoreEntry>::empty()).remove((ns@, key@)) =~= entries_map(
                Seq::<StoreEntry>::empty(),
            ));
        }
        while i < n
            invariant
                i <= n,
                n == self.entries@.len(),
                entries_map(out@) == entries_map(self.entries@.take(i as int)).remove((ns@, key@)),
                found == entries_map(self.entries@.take(i as int)).dom().contains((ns@, key@)),
            decreases n - i,
        {
            proof {
                assert(self.entries@.take(i + 1).drop_last() =~= self.entries@.take(i as int));
                assert(self.entries@.take(i + 1).last() == self.entries@[i as int]);
            }
            let e = &self.entries[i];
            if bytes_eq(&e.namespace, ns) && bytes_eq(&e.key, key) {
                found = true;
                proof {
                    assert(entries_map(self.entries@.take(i + 1)).remove((ns@, key@)) =~=
                    entries_map(self.entries@.take(i as int)).remove((ns@, key@)));
                }
            } else {
                let kept = StoreEntry {
                    namespace: sub_bytes(&e.namespace, 0, e.namespace.len()),
                    key: sub_bytes(&e.key, 0, e.key.len()),
                    blob: sub_bytes(&e.blob, 0, e.blob.len()),
                };
                proof {
                    assert(e.namespace@.subrange(0, e.namespace@.len() as int) =~= e.namespace@);
                    assert(e.key@.subrange(0, e.key@.len() as int) =~= e.key@);
                    assert(e.blob@.subrange(0, e.blob@.len() as int) =~= e.blob@);
                }
                let ghost out_pre = out@;
                out.push(kept);
                proof {
                    assert(out@.drop_last() =~= out_pre);
                    assert(entries_map(out@) =~= entries_map(self.entries@.take(i + 1)).remove(
                        (ns@, key@),
                    ));
                }
            }
            i += 1;
        }
        proof {
            assert(self.entries@.take(n as int) =~= self.entries@);
        }
        self.entries = out;
        found
    }

    /// Stores a configuration under a named key.
    pub fn save_to(&mut self, data: NetConfig, key: &str)
        ensures
            final(self).contents() == old(self).contents().insert(
                (config_namespace(), encode_utf8(key@)),
                encode_model(config_model(data)),
            ),
    {
        let ns = namespace_for(&("NetConfig").as_bytes_vec());
        let kb = key.as_bytes_vec();
        let blob = encode_config(&data);
        self.set_blob(&ns, &kb, blob);
    }

    /// Stores a configuration under the default key.
    pub fn save(&mut self, data: NetConfig)
        ensures
            final(self).contents() == old(self).contents().insert(
                (config_namespace(), default_key()),
                encode_model(config_model(data)),
            ),
    {
        self.save_to(data, "__default");
    }

    /// Loads the configuration stored under a named key.  A key nothing is
    /// stored under, and a blob that does not decode, both yield `None`.
    pub fn load_from(&self, key: &str) -> (r: Option<NetConfig>)
        ensures
            ({
                let k = (config_namespace(), encode_utf8(key@));
                match r {
                    Some(c) => self.contents().dom().contains(k) && decode_model(
                        self.contents()[k],
                    ) == Some(config_model(c)),
                    None => !self.contents().dom().contains(k) || decode_model(
                        self.contents()[k],
                    ) is None,
                }
            }),
    {
        let ns = namespace_for(&("NetConfig").as_bytes_vec());
        let kb = key.as_bytes_vec();
        match self.get_blob(&ns, &kb) {
            None => None,
            Some(b) => decode_config(&b),
        }
    }

    /// Loads the configuration stored under the default key.
    pub fn load(&self) -> (r: Option<NetConfig>)
        ensures
            ({
                let k = (config_namespace(), default_key());
                match r {
                    Some(c) => self.contents().dom().contains(k) && decode_model(
                        self.contents()[k],
                    ) == Some(config_model(c)),
                    None => !self.contents().dom().contains(k) || decode_model(
                        self.contents()[k],
                    ) is None,
                }
            }),
    {
        self.load_from("__default")
    }

    /// Removes the configuration under a named key, and says whether one
    /// was stored.
    pub fn remove_from(&mut self, key: &str) -> (r: bool)
        ensures
            final(self).contents() == old(self).contents().remove(
                (config_namespace(), encode_utf8(key@)),
            ),
            r == old(self).contents().dom().contains((config_namespace(), encode_utf8(key@))),
    {
        let ns = namespace_for(&("NetConfig").as_bytes_vec());
        let kb = key.as_bytes_vec();
        self.remove_blob(&ns, &kb)
    }

    /// Removes the configuration under the default key.
    pub fn remove(&mut self) -> (r: bool)
        ensures
            final(self).contents() == old(self).contents().remove(
                (config_namespace(), default_key()),
            ),
            r == old(self).contents().dom().contains((config_namespace(), default_key())),
    {
        self.remove_from("__default")
    }
}

/// Law: saving a configuration and loading it back yields the saved value,
/// and loading after a remove yields nothing, whatever the store held
/// before.
pub proof fn lemma_store_roundtrip(
    contents: Map<(Seq<u8>, Seq<u8>), Seq<u8>>,
    k: (Seq<u8>, Seq<u8>),
    m: ConfigModel,
)
    requires
        match m {
            ConfigModel::Portal { username, password } => encode_utf8(username).len() <= u64::MAX
                && encode_utf8(password).len() <= u64::MAX,
            ConfigModel::Normal { ssid, password } => encode_utf8(ssid).len() <= u64::MAX
                && encode_utf8(password).len() <= u64::MAX,
        },
    ensures
        ({
            let saved = contents.insert(k, encode_model(m));
            saved.dom().contains(k) && decode_model(saved[k]) == Some(m)
        }),
        !contents.remove(k).dom().contains(k),
{
    lemma_codec_roundtrip(m);
}

} // verus!
