//! Secret values in transit, the path mappings that address them, and the
//! projection of a backend's key/value data through a mapping.
use vstd::prelude::*;

use crate::strmap::{to_map, Entries, StrMap};

verus! {

/// The supported backend variants, in their sort order.
#[derive(Debug, Clone, Copy, PartialEq, Eq, Structural, PartialOrd, Ord, Hash)]
pub enum ProviderKind {
    Inmem,
    Dotenv,
    Hashicorp,
    HashiCorpConsul,
    SSM,
    AWSSecretsManager,
    GoogleSecretManager,
    Etcd,
    External,
}

/// Position of a kind in the enumeration order.
pub open spec fn kind_rank(k: ProviderKind) -> int {
    match k {
        ProviderKind::Inmem => 0,
        ProviderKind::Dotenv => 1,
        ProviderKind::Hashicorp => 2,
        ProviderKind::HashiCorpConsul => 3,
        ProviderKind::SSM => 4,
        ProviderKind::AWSSecretsManager => 5,
        ProviderKind::GoogleSecretManager => 6,
        ProviderKind::Etcd => 7,
        ProviderKind::External => 8,
    }
}

/// The configuration tag of a kind.
pub open spec fn kind_tag(k: ProviderKind) -> Seq<char> {
    match k {
        ProviderKind::Inmem => "inmem"@,
        ProviderKind::Dotenv => "dotenv"@,
        ProviderKind::Hashicorp => "hashicorp"@,
        ProviderKind::HashiCorpConsul => "hashicorp_consul"@,
        ProviderKind::SSM => "ssm"@,
        ProviderKind::AWSSecretsManager => "aws_secretsmanager"@,
        ProviderKind::GoogleSecretManager => "google_secretmanager"@,
        ProviderKind::Etcd => "etcd"@,
        ProviderKind::External => "external"@,
    }
}

/// Whether two strings hold the same characters.
pub fn str_eq(a: &str, b: &str) -> (r: bool)
    ensures
        r == (a@ == b@),
{
    a.to_owned() == b.to_owned()
}

impl ProviderKind {
    /// Every kind, in enumeration order.
    pub fn all() -> (r: Vec<ProviderKind>)
        ensures
            r@.len() == 9,
            forall|i: int| 0 <= i < 9 ==> kind_rank(#[trigger] r@[i]) == i,
    {
        vec![
            ProviderKind::Inmem,
            ProviderKind::Dotenv,
            ProviderKind::Hashicorp,
            ProviderKind::HashiCorpConsul,
            ProviderKind::SSM,
            ProviderKind::AWSSecretsManager,
            ProviderKind::GoogleSecretManager,
            ProviderKind::Etcd,
            ProviderKind::External,
        ]
    }

    /// The configuration tag of this kind.
    pub fn tag(&self) -> (r: &'static str)
        ensures
            r@ == kind_tag(*self),
    {
        match self {
            ProviderKind::Inmem => "inmem",
            ProviderKind::Dotenv => "dotenv",
            ProviderKind::Hashicorp => "hashicorp",
            ProviderKind::HashiCorpConsul => "hashicorp_consul",
            ProviderKind::SSM => "ssm",
            ProviderKind::AWSSecretsManager => "aws_secretsmanager",
            ProviderKind::GoogleSecretManager => "google_secretmanager",
            ProviderKind::Etcd => "etcd",
            ProviderKind::External => "external",
        }
    }

    /// The configuration tag of this kind, owned.
    pub fn to_string(&self) -> (r: String)
        ensures
            r@ == kind_tag(*self),
    {
        self.tag().to_owned()
    }

    /// The kind whose tag is `s`.
    pub fn parse(s: &str) -> (r: Option<ProviderKind>)
        ensures
            r.is_some() ==> kind_tag(r.unwrap()) == s@,
            r.is_none() ==> forall|k: ProviderKind| kind_tag(k) != s@,
    {
        let kinds = ProviderKind::all();
        let mut i: usize = 0;
        while i < kinds.len()
            invariant
                kinds@.len() == 9,
                forall|j: int| 0 <= j < 9 ==> kind_rank(#[trigger] kinds@[j]) == j,
                i <= 9,
                forall|j: int| 0 <= j < i ==> kind_tag(#[trigger] kinds@[j]) != s@,
            decreases 9 - i,
        {
            if str_eq(kinds[i].tag(), s) {
                return Some(kinds[i]);
            }
            i = i + 1;
        }
        assert forall|k: ProviderKind| kind_tag(k) != s@ by {
            let j = kind_rank(k);
            assert(kinds@[j] == k);
        }
        None
    }

    /// Whether this kind sorts strictly before `other`.
    pub fn lt(&self, other: &ProviderKind) -> (r: bool)
        ensures
            r == (kind_rank(*self) < kind_rank(*other)),
    {
        self.rank() < other.rank()
    }

    /// Position in the enumeration order.
    pub fn rank(&self) -> (r: u8)
        ensures
            r as int == kind_rank(*self),
    {
        match self {
            ProviderKind::Inmem => 0,
            ProviderKind::Dotenv => 1,
            ProviderKind::Hashicorp => 2,
            ProviderKind::HashiCorpConsul => 3,
            ProviderKind::SSM => 4,
            ProviderKind::AWSSecretsManager => 5,
            ProviderKind::GoogleSecretManager => 6,
            ProviderKind::Etcd => 7,
            ProviderKind::External => 8,
        }
    }
}

impl Default for ProviderKind {
    fn default() -> (r: ProviderKind)
        ensures
            r == ProviderKind::Dotenv,
    {
        ProviderKind::Dotenv
    }
}

/// Which provider operation reads a backend.
#[derive(Debug, Clone, Copy, PartialEq, Eq, Structural)]
pub enum Mode {
    Get,
    Put,
    Del,
}

/// How sensitive a mapped secret is.
#[derive(Debug, Clone, Copy, PartialEq, Eq, Structural)]
pub enum Sensitivity {
    Unclassified,
    Low,
    Medium,
    High,
    Critical,
}

impl Default for Sensitivity {
    fn default() -> (r: Sensitivity)
        ensures
            r == Sensitivity::Unclassified,
    {
        Sensitivity::Unclassified
    }
}

/// Which provider instance a value came from.
#[derive(Debug, Clone)]
pub struct ProviderInfo {
    pub kind: ProviderKind,
    pub name: String,
}

/// Which mapping a value came from.
#[derive(Debug, Clone)]
pub struct PathInfo {
    pub id: String,
    pub path: String,
}

/// Presentation hints carried from the mapping to each value.
#[derive(Debug, Clone)]
pub struct MetaInfo {
    pub sensitivity: Sensitivity,
    pub redact_with: Option<String>,
    pub source: Option<String>,
    pub sink: Option<String>,
}

/// A secret value, under the key that consumers see.
#[derive(Debug, Clone)]
pub struct KV {
    pub value: String,
    /// The key after renaming.
    pub key: String,
    /// The key in the backend.
    pub from_key: String,
    pub path: Option<PathInfo>,
    pub provider: Option<ProviderInfo>,
    pub meta: Option<MetaInfo>,
}

/// A mapping: a path in one provider, with an optional selection and renaming of keys.
#[derive(Debug, Clone)]
pub struct PathMap {
    pub id: String,
    pub protocol: Option<String>,
    pub path: String,
    /// `from_key -> to_key`; empty means every key under the path.
    pub keys: StrMap,
    pub decrypt: bool,
    pub sensitivity: Sensitivity,
    pub redact_with: Option<String>,
    pub source: Option<String>,
    pub sink: Option<String>,
    pub optional: bool,
}

/// An equal copy of an optional string.
pub fn copy_opt(o: &Option<String>) -> (r: Option<String>)
    ensures
        r == *o,
{
    match o {
        Some(s) => Some(s.clone()),
        None => None,
    }
}

impl ProviderInfo {
    /// An equal copy.
    pub fn duplicate(&self) -> (r: ProviderInfo)
        ensures
            r == *self,
    {
        ProviderInfo { kind: self.kind, name: self.name.clone() }
    }
}

impl PathInfo {
    /// An equal copy.
    pub fn duplicate(&self) -> (r: PathInfo)
        ensures
            r == *self,
    {
        PathInfo { id: self.id.clone(), path: self.path.clone() }
    }
}

impl MetaInfo {
    /// An equal copy.
    pub fn duplicate(&self) -> (r: MetaInfo)
        ensures
            r == *self,
    {
        MetaInfo {
            sensitivity: self.sensitivity,
            redact_with: copy_opt(&self.redact_with),
            source: copy_opt(&self.source),
            sink: copy_opt(&self.sink),
        }
    }
}

/// The metadata that a mapping gives each of its values.
pub open spec fn meta_of(pm: &PathMap) -> MetaInfo {
    MetaInfo {
        sensitivity: pm.sensitivity,
        redact_with: pm.redact_with,
        source: pm.source,
        sink: pm.sink,
    }
}

/// The path record that a mapping gives each of its values.
pub open spec fn path_info_of(pm: &PathMap) -> PathInfo {
    PathInfo { id: pm.id, path: pm.path }
}

/// `kv` carries `value` from backend key `from` under key `to`, tagged with
/// the mapping `pm` and the provider `p`.
pub open spec fn is_mapped_kv(
    kv: KV,
    value: Seq<char>,
    from: Seq<char>,
    to: Seq<char>,
    pm: &PathMap,
    p: ProviderInfo,
) -> bool {
    &&& kv.value@ == value
    &&& kv.key@ == to
    &&& kv.from_key@ == from
    &&& kv.path == Some(path_info_of(pm))
    &&& kv.provider == Some(p)
    &&& kv.meta == Some(meta_of(pm))
}

/// The `(from_key, to_key, value)` triples that a mapping with key selection
/// `keys` draws from `data`: every entry when `keys` is empty, else each
/// selected key present in `data`, in the order of `keys`.
pub open spec fn projection(data: Entries, keys: Entries) -> Seq<(Seq<char>, Seq<char>, Seq<char>)> {
    if keys.len() == 0 {
        data.map_values(|e: (Seq<char>, Seq<char>)| (e.0, e.0, e.1))
    } else {
        selection(to_map(data), keys)
    }
}

/// The selected keys of `keys` that `m` holds, renamed, in order.
pub open spec fn selection(m: Map<Seq<char>, Seq<char>>, keys: Entries) -> Seq<(Seq<char>, Seq<char>, Seq<char>)>
    decreases keys.len(),
{
    if keys.len() == 0 {
        Seq::empty()
    } else {
        let rest = selection(m, keys.drop_last());
        let e = keys.last();
        if m.contains_key(e.0) {
            rest.push((e.0, e.1, m[e.0]))
        } else {
            rest
        }
    }
}

/// `m` with each value of `kvs` written over it in turn.
pub open spec fn overlay_map(m: Map<Seq<char>, Seq<char>>, kvs: Seq<KV>) -> Map<Seq<char>, Seq<char>>
    decreases kvs.len(),
{
    if kvs.len() == 0 {
        m
    } else {
        overlay_map(m, kvs.drop_last()).insert(kvs.last().key@, kvs.last().value@)
    }
}

/// The key/value dictionary of a list of values, later keys overriding earlier ones.
pub open spec fn data_of(kvs: Seq<KV>) -> Map<Seq<char>, Seq<char>> {
    overlay_map(Map::empty(), kvs)
}

impl KV {
    /// An equal copy.
    pub fn duplicate(&self) -> (r: KV)
        ensures
            r == *self,
    {
        KV {
            value: self.value.clone(),
            key: self.key.clone(),
            from_key: self.from_key.clone(),
            path: match &self.path {
                Some(p) => Some(p.duplicate()),
                None => None,
            },
            provider: match &self.provider {
                Some(p) => Some(p.duplicate()),
                None => None,
            },
            meta: match &self.meta {
                Some(m) => Some(m.duplicate()),
                None => None,
            },
        }
    }

    /// The key/value dictionary of `kvs`, later keys overriding earlier ones.
    pub fn to_data(kvs: &[KV]) -> (r: StrMap)
        ensures
            to_map(r@) == data_of(kvs@),
    {
        let mut data = StrMap::new();
        proof {
            crate::strmap::lemma_to_map_empty(data@);
        }
        let mut i: usize = 0;
        while i < kvs.len()
            invariant
                i <= kvs@.len(),
                to_map(data@) == data_of(kvs@.subrange(0, i as int)),
            decreases kvs.len() - i,
        {
            data.insert(kvs[i].key.clone(), kvs[i].value.clone());
            assert(kvs@.subrange(0, i + 1).drop_last() =~= kvs@.subrange(0, i as int));
            i = i + 1;
        }
        assert(kvs@.subrange(0, kvs@.len() as int) =~= kvs@);
        data
    }

    /// A value found under backend key `from_key`, presented as `to_key`.
    pub fn from_value(found_val: &str, from_key: &str, to_key: &str, pm: &PathMap, provider: ProviderInfo) -> (r: KV)
        ensures
            is_mapped_kv(r, found_val@, from_key@, to_key@, pm, provider),
    {
        KV {
            value: found_val.to_owned(),
            key: to_key.to_owned(),
            from_key: from_key.to_owned(),
            path: Some(PathInfo { id: pm.id.clone(), path: pm.path.clone() }),
            provider: Some(provider),
            meta: Some(
                MetaInfo {
                    sensitivity: pm.sensitivity,
                    redact_with: copy_opt(&pm.redact_with),
                    source: copy_opt(&pm.source),
                    sink: copy_opt(&pm.sink),
                },
            ),
        }
    }

    /// The values that mapping `pm` draws from backend data `data`.
    pub fn from_data(data: &StrMap, pm: &PathMap, provider: &ProviderInfo) -> (r: Vec<KV>)
        ensures
            r@.len() == projection(data@, pm.keys@).len(),
            forall|i: int|
                0 <= i < r@.len() ==> #[trigger] is_mapped_kv(
                    r@[i],
                    projection(data@, pm.keys@)[i].2,
                    projection(data@, pm.keys@)[i].0,
                    projection(data@, pm.keys@)[i].1,
                    pm,
                    *provider,
                ),
    {
        let mut out: Vec<KV> = Vec::new();
        if pm.keys.is_empty() {
            let mut i: usize = 0;
            while i < data.len()
                invariant
                    pm.keys@.len() == 0,
                    i <= data@.len(),
                    out@.len() == i,
                    forall|j: int|
                        0 <= j < i ==> #[trigger] is_mapped_kv(
                            out@[j],
                            data@[j].1,
                            data@[j].0,
                            data@[j].0,
                            pm,
                            *provider,
                        ),
                decreases data@.len() - i,
            {
                let k = data.key_at(i);
                let v = data.value_at(i);
                let kv = KV::from_value(v.as_str(), k.as_str(), k.as_str(), pm, provider.duplicate());
                out.push(kv);
                i = i + 1;
            }
        } else {
            let mut i: usize = 0;
            while i < pm.keys.len()
                invariant
                    pm.keys@.len() > 0,
                    i <= pm.keys@.len(),
                    out@.len() == selection(to_map(data@), pm.keys@.subrange(0, i as int)).len(),
                    forall|j: int|
                        0 <= j < out@.len() ==> #[trigger] is_mapped_kv(
                            out@[j],
                            selection(to_map(data@), pm.keys@.subrange(0, i as int))[j].2,
                            selection(to_map(data@), pm.keys@.subrange(0, i as int))[j].0,
                            selection(to_map(data@), pm.keys@.subrange(0, i as int))[j].1,
                            pm,
                            *provider,
                        ),
                decreases pm.keys@.len() - i,
            {
                let ghost prev = selection(to_map(data@), pm.keys@.subrange(0, i as int));
                assert(pm.keys@.subrange(0, i + 1).drop_last() =~= pm.keys@.subrange(0, i as int));
                let from = pm.keys.key_at(i);
                let to = pm.keys.value_at(i);
                match data.get(from.as_str()) {
                    Some(v) => {
                        let kv = KV::from_value(v.as_str(), from.as_str(), to.as_str(), pm, provider.duplicate());
                        out.push(kv);
                    },
                    None => {},
                }
                i = i + 1;
            }
            assert(pm.keys@.subrange(0, pm.keys@.len() as int) =~= pm.keys@);
        }
        out
    }

    /// A value with no backend metadata, read from `path` under `key`.
    pub fn from_literal(path: &str, key: &str, value: &str, provider: ProviderInfo) -> (r: KV)
        ensures
            r.value@ == value@,
            r.key@ == key@,
            r.from_key@ == key@,
            r.path.is_some() && r.path.unwrap().id@ == path@ && r.path.unwrap().path@ == path@,
            r.provider == Some(provider),
            r.meta.is_none(),
    {
        KV {
            value: value.to_owned(),
            key: key.to_owned(),
            from_key: key.to_owned(),
            path: Some(PathInfo { id: path.to_owned(), path: path.to_owned() }),
            provider: Some(provider),
            meta: None,
        }
    }

    /// A value written by a user, not yet stored in any provider.
    pub fn from_kv(key: &str, value: &str) -> (r: KV)
        ensures
            r.value@ == value@,
            r.key@ == key@,
            r.from_key@ == key@,
            r.path.is_none(),
            r.provider.is_none(),
            r.meta.is_none(),
    {
        KV {
            value: value.to_owned(),
            key: key.to_owned(),
            from_key: key.to_owned(),
            path: None,
            provider: None,
            meta: None,
        }
    }
}

impl PathMap {
    /// A mapping of every key under `path`, with default settings.
    pub fn from_path(path: &str) -> (r: PathMap)
        ensures
            r.path@ == path@,
            r.id@.len() == 0,
            r.protocol.is_none(),
            r.keys@.len() == 0,
            !r.decrypt,
            r.sensitivity == Sensitivity::Unclassified,
            r.redact_with.is_none(),
            r.source.is_none(),
            r.sink.is_none(),
            !r.optional,
    {
        PathMap {
            id: String::new(),
            protocol: None,
            path: path.to_owned(),
            keys: StrMap::new(),
            decrypt: false,
            sensitivity: Sensitivity::Unclassified,
            redact_with: None,
            source: None,
            sink: None,
            optional: false,
        }
    }

    /// An equal copy, with the key selection copied entry by entry.
    pub fn duplicate(&self) -> (r: PathMap)
        ensures
            r.id == self.id,
            r.protocol == self.protocol,
            r.path == self.path,
            r.keys@ == self.keys@,
            r.decrypt == self.decrypt,
            r.sensitivity == self.sensitivity,
            r.redact_with == self.redact_with,
            r.source == self.source,
            r.sink == self.sink,
            r.optional == self.optional,
    {
        PathMap {
            id: self.id.clone(),
            protocol: copy_opt(&self.protocol),
            path: self.path.clone(),
            keys: self.keys.duplicate(),
            decrypt: self.decrypt,
            sensitivity: self.sensitivity,
            redact_with: copy_opt(&self.redact_with),
            source: copy_opt(&self.source),
            sink: copy_opt(&self.sink),
            optional: self.optional,
        }
    }
}

} // verus!
