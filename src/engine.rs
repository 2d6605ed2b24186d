//! The configuration, the registry of provider instances, and the engine's
//! decisions: which mapping an operation addresses and what it sends.
use vstd::prelude::*;

use crate::config::{kind_tag, str_eq, PathMap, ProviderKind, KV};
use crate::error::Error;
use crate::strmap::{to_map, Entries, StrMap};

verus! {

/// One provider of the configuration.
#[derive(Debug, Clone)]
pub struct ProviderCfg {
    pub kind: ProviderKind,
    /// Display name.
    pub name: Option<String>,
    pub maps: Vec<PathMap>,
}

/// The providers of a configuration, by name, in name order.
#[derive(Debug, Clone)]
pub struct Config {
    pub providers: Vec<(String, ProviderCfg)>,
}

/// The kinds to write into a new configuration.
#[derive(Debug, Clone)]
pub struct RenderTemplate {
    pub providers: Vec<ProviderKind>,
}

/// Position of a kind when kinds are ordered by tag.
pub open spec fn tag_rank(k: ProviderKind) -> int {
    match k {
        ProviderKind::AWSSecretsManager => 0,
        ProviderKind::Dotenv => 1,
        ProviderKind::Etcd => 2,
        ProviderKind::External => 3,
        ProviderKind::GoogleSecretManager => 4,
        ProviderKind::Hashicorp => 5,
        ProviderKind::HashiCorpConsul => 6,
        ProviderKind::Inmem => 7,
        ProviderKind::SSM => 8,
    }
}

fn kinds_by_tag() -> (r: Vec<ProviderKind>)
    ensures
        r@.len() == 9,
        forall|i: int| 0 <= i < 9 ==> tag_rank(#[trigger] r@[i]) == i,
{
    vec![
        ProviderKind::AWSSecretsManager,
        ProviderKind::Dotenv,
        ProviderKind::Etcd,
        ProviderKind::External,
        ProviderKind::GoogleSecretManager,
        ProviderKind::Hashicorp,
        ProviderKind::HashiCorpConsul,
        ProviderKind::Inmem,
        ProviderKind::SSM,
    ]
}

fn contains_kind(ks: &Vec<ProviderKind>, k: ProviderKind) -> (r: bool)
    ensures
        r == ks@.contains(k),
{
    let mut i: usize = 0;
    while i < ks.len()
        invariant
            i <= ks@.len(),
            forall|j: int| 0 <= j < i ==> ks@[j] != k,
        decreases ks.len() - i,
    {
        if ks[i] == k {
            return true;
        }
        i = i + 1;
    }
    false
}

/// A starter configuration: one provider `<tag>_1` of each requested kind,
/// mapping `example/dev`, in name order.
pub fn template_config(data: &RenderTemplate) -> (r: Config)
    ensures
        forall|k: ProviderKind| data.providers@.contains(k) <==> exists|i: int|
            0 <= i < r.providers@.len() && (#[trigger] r.providers@[i]).1.kind == k,
        forall|i: int, j: int|
            0 <= i < j < r.providers@.len() ==> tag_rank((#[trigger] r.providers@[i]).1.kind) < tag_rank(
                (#[trigger] r.providers@[j]).1.kind,
            ),
        forall|i: int|
            0 <= i < r.providers@.len() ==> {
                let (n, c) = #[trigger] r.providers@[i];
                &&& n@ == kind_tag(c.kind) + "_1"@
                &&& c.name is None
                &&& c.maps@.len() == 1
                &&& c.maps@[0].path@ == "example/dev"@
                &&& c.maps@[0].keys@.len() == 0
            },
{
    let order = kinds_by_tag();
    let mut providers: Vec<(String, ProviderCfg)> = Vec::new();
    let mut i: usize = 0;
    while i < order.len()
        invariant
            order@.len() == 9,
            forall|j: int| 0 <= j < 9 ==> tag_rank(#[trigger] order@[j]) == j,
            i <= 9,
            forall|k: ProviderKind| (data.providers@.contains(k) && tag_rank(k) < i) <==> exists|m: int|
                0 <= m < providers@.len() && (#[trigger] providers@[m]).1.kind == k,
            forall|a: int| 0 <= a < providers@.len() ==> tag_rank((#[trigger] providers@[a]).1.kind) < i,
            forall|a: int, b: int|
                0 <= a < b < providers@.len() ==> tag_rank((#[trigger] providers@[a]).1.kind) < tag_rank(
                    (#[trigger] providers@[b]).1.kind,
                ),
            forall|a: int|
                0 <= a < providers@.len() ==> {
                    let (n, c) = #[trigger] providers@[a];
                    &&& n@ == kind_tag(c.kind) + "_1"@
                    &&& c.name is None
                    &&& c.maps@.len() == 1
                    &&& c.maps@[0].path@ == "example/dev"@
                    &&& c.maps@[0].keys@.len() == 0
                },
        decreases 9 - i,
    {
        let k = order[i];
        if contains_kind(&data.providers, k) {
            let mut name = k.tag().to_owned();
            name.append("_1");
            let maps = vec![PathMap::from_path("example/dev")];
            let ghost before = providers@;
            providers.push((name, ProviderCfg { kind: k, name: None, maps }));
            proof {
                assert forall|kk: ProviderKind| (data.providers@.contains(kk) && tag_rank(kk) < i + 1) implies exists|m: int|
                    0 <= m < providers@.len() && (#[trigger] providers@[m]).1.kind == kk by {
                    if tag_rank(kk) == i {
                        assert(kk == k) by {
                            assert(order@[tag_rank(kk)] == kk) by {
                                assert(tag_rank(order@[tag_rank(kk)]) == tag_rank(kk));
                            }
                        }
                        assert(providers@[before.len() as int].1.kind == kk);
                    } else {
                        let m = choose|m: int| 0 <= m < before.len() && (#[trigger] before[m]).1.kind == kk;
                        assert(providers@[m] == before[m]);
                    }
                }
                assert forall|kk: ProviderKind| (exists|m: int|
                    0 <= m < providers@.len() && (#[trigger] providers@[m]).1.kind == kk) implies (data.providers@.contains(kk) && tag_rank(kk) < i + 1) by {
                    let m = choose|m: int| 0 <= m < providers@.len() && (#[trigger] providers@[m]).1.kind == kk;
                    if m < before.len() {
                        assert(before[m] == providers@[m]);
                    }
                }
            }
        } else {
            proof {
                assert forall|kk: ProviderKind| (data.providers@.contains(kk) && tag_rank(kk) < i + 1) implies exists|m: int|
                    0 <= m < providers@.len() && (#[trigger] providers@[m]).1.kind == kk by {
                    assert(tag_rank(order@[tag_rank(kk)]) == tag_rank(kk));
                }
            }
        }
        i = i + 1;
    }
    Config { providers }
}

/// The marker that renames a key to itself.
pub open spec fn same_name_marker() -> Seq<char> {
    "=="@
}

/// A key selection with each `==` target resolved to the source key.
pub open spec fn resolve_eqeq(keys: Entries) -> Entries {
    keys.map_values(|e: (Seq<char>, Seq<char>)| if e.1 == same_name_marker() { (e.0, e.0) } else { e })
}

/// A key selection with each `==` target resolved to its source key.
pub fn resolve_keys(keys: &StrMap) -> (r: StrMap)
    ensures
        r@ == resolve_eqeq(keys@),
{
    let n = keys.len();
    let mut values: Vec<String> = Vec::new();
    let mut i: usize = 0;
    while i < n
        invariant
            n == keys@.len(),
            i <= n,
            values@.len() == i,
            forall|j: int| 0 <= j < i ==> (#[trigger] values@[j])@ == resolve_eqeq(keys@)[j].1,
        decreases n - i,
    {
        let v = keys.value_at(i);
        if str_eq(v.as_str(), "==") {
            values.push(keys.key_at(i).clone());
        } else {
            values.push(v.clone());
        }
        i = i + 1;
    }
    let r = keys.with_values(values);
    assert(r@ =~= resolve_eqeq(keys@));
    r
}

/// Two key selections say the same thing: equal keys in order, and each
/// target equal, or `==` where the other names the source key itself.
pub open spec fn same_selection(a: Entries, b: Entries) -> bool {
    &&& a.len() == b.len()
    &&& forall|i: int|
        0 <= i < a.len() ==> (#[trigger] a[i]).0 == b[i].0 && (a[i].1 == b[i].1 || (a[i].1
            == same_name_marker() && b[i].1 == b[i].0) || (b[i].1 == same_name_marker() && a[i].1
            == a[i].0))
}

/// A selection `{X: "=="}` resolves to the same selection as `{X: X}`:
/// selections that differ only in writing a same-name target as `==` resolve
/// alike, and after resolution no target is `==` unless its key is.
pub proof fn lemma_eqeq_sugar(a: Entries, b: Entries)
    requires
        same_selection(a, b),
    ensures
        resolve_eqeq(a) == resolve_eqeq(b),
        forall|i: int|
            0 <= i < a.len() && (#[trigger] resolve_eqeq(a)[i]).1 == same_name_marker() ==> a[i].0
                == same_name_marker(),
{
    assert(resolve_eqeq(a) =~= resolve_eqeq(b));
}

/// `r` is `pm` with its key selection resolved.
pub open spec fn resolved_from(r: PathMap, pm: PathMap) -> bool {
    &&& r.id == pm.id
    &&& r.protocol == pm.protocol
    &&& r.path == pm.path
    &&& r.keys@ == resolve_eqeq(pm.keys@)
    &&& r.decrypt == pm.decrypt
    &&& r.sensitivity == pm.sensitivity
    &&& r.redact_with == pm.redact_with
    &&& r.source == pm.source
    &&& r.sink == pm.sink
    &&& r.optional == pm.optional
}

/// A mapping with its key selection resolved.
pub fn resolve_pathmap(pm: &PathMap) -> (r: PathMap)
    ensures
        resolved_from(r, *pm),
{
    let mut r = pm.duplicate();
    r.keys = resolve_keys(&pm.keys);
    r
}

/// The configuration with every `==` target resolved to its source key.
pub fn apply_eqeq(config: &Config) -> (r: Config)
    ensures
        r.providers@.len() == config.providers@.len(),
        forall|i: int|
            0 <= i < r.providers@.len() ==> {
                let (n, c) = #[trigger] r.providers@[i];
                let (n0, c0) = config.providers@[i];
                &&& n == n0
                &&& c.kind == c0.kind
                &&& c.name == c0.name
                &&& c.maps@.len() == c0.maps@.len()
                &&& forall|j: int| 0 <= j < c.maps@.len() ==> resolved_from(#[trigger] c.maps@[j], c0.maps@[j])
            },
{
    let mut providers: Vec<(String, ProviderCfg)> = Vec::new();
    let mut i: usize = 0;
    while i < config.providers.len()
        invariant
            i <= config.providers@.len(),
            providers@.len() == i,
            forall|k: int|
                0 <= k < i ==> {
                    let (n, c) = #[trigger] providers@[k];
                    let (n0, c0) = config.providers@[k];
                    &&& n == n0
                    &&& c.kind == c0.kind
                    &&& c.name == c0.name
                    &&& c.maps@.len() == c0.maps@.len()
                    &&& forall|j: int| 0 <= j < c.maps@.len() ==> resolved_from(#[trigger] c.maps@[j], c0.maps@[j])
                },
        decreases config.providers.len() - i,
    {
        let cfg = &config.providers[i].1;
        let mut maps: Vec<PathMap> = Vec::new();
        let mut j: usize = 0;
        while j < cfg.maps.len()
            invariant
                j <= cfg.maps@.len(),
                maps@.len() == j,
                forall|k: int| 0 <= k < j ==> resolved_from(#[trigger] maps@[k], cfg.maps@[k]),
            decreases cfg.maps.len() - j,
        {
            maps.push(resolve_pathmap(&cfg.maps[j]));
            j = j + 1;
        }
        let name = match &cfg.name {
            Some(n) => Some(n.clone()),
            None => None,
        };
        providers.push((config.providers[i].0.clone(), ProviderCfg { kind: cfg.kind, name, maps }));
        i = i + 1;
    }
    Config { providers }
}

/// Provider instances by name.
#[derive(Debug)]
pub struct Registry<P> {
    pub providers: Vec<(String, P)>,
}

impl<P> Registry<P> {
    /// A registry of the given instances.
    pub fn new(providers: Vec<(String, P)>) -> (r: Registry<P>)
        ensures
            r.providers == providers,
    {
        Registry { providers }
    }

    /// The instance registered under `name` (the first, if several are).
    pub fn get(&self, name: &str) -> (r: Option<&P>)
        ensures
            r is None <==> forall|i: int| 0 <= i < self.providers@.len() ==> (#[trigger] self.providers@[i]).0@ != name@,
            r is Some ==> exists|i: int|
                0 <= i < self.providers@.len() && (#[trigger] self.providers@[i]).0@ == name@ && *r->Some_0
                    == self.providers@[i].1 && forall|j: int| 0 <= j < i ==> (#[trigger] self.providers@[j]).0@ != name@,
    {
        let mut i: usize = 0;
        while i < self.providers.len()
            invariant
                i <= self.providers@.len(),
                forall|j: int| 0 <= j < i ==> (#[trigger] self.providers@[j]).0@ != name@,
            decreases self.providers.len() - i,
        {
            if str_eq(self.providers[i].0.as_str(), name) {
                return Some(&self.providers[i].1);
            }
            i = i + 1;
        }
        None
    }
}

/// The engine: the configuration and its provider instances.
pub struct Teller<P> {
    pub registry: Registry<P>,
    pub config: Config,
}

/// `a`, `b` and `c` joined.
fn concat3(a: &str, b: &str, c: &str) -> (r: String)
    ensures
        r@ == a@ + b@ + c@,
{
    let mut out = a.to_owned();
    out.append(b);
    out.append(c);
    out
}

/// Some provider of the configuration is named `name`.
pub open spec fn has_provider(ps: Seq<(String, ProviderCfg)>, name: Seq<char>) -> bool {
    exists|i: int| 0 <= i < ps.len() && (#[trigger] ps[i]).0@ == name
}

/// The index of the first provider named `name` (meaningful where there is one).
pub open spec fn first_provider(ps: Seq<(String, ProviderCfg)>, name: Seq<char>) -> int {
    choose|i: int| 0 <= i < ps.len() && ps[i].0@ == name && forall|k: int| 0 <= k < i ==> (#[trigger] ps[k]).0@ != name
}

/// Some mapping has id `id`.
pub open spec fn has_map(maps: Seq<PathMap>, id: Seq<char>) -> bool {
    exists|j: int| 0 <= j < maps.len() && (#[trigger] maps[j]).id@ == id
}

/// Some instance is registered under `name`.
pub open spec fn registered<P>(reg: Seq<(String, P)>, name: Seq<char>) -> bool {
    exists|k: int| 0 <= k < reg.len() && (#[trigger] reg[k]).0@ == name
}

impl<P> Teller<P> {
    pub fn new(registry: Registry<P>, config: Config) -> (r: Teller<P>)
        ensures
            r.registry == registry,
            r.config == config,
    {
        Teller { registry, config }
    }

    /// The instance and the mapping with id `map_id` of the provider named
    /// `provider_name`: an error names a provider missing from the
    /// configuration, a map id missing from it, or an instance missing from
    /// the registry, checked in that order.
    pub fn get_pathmap_on_provider(&self, map_id: &str, provider_name: &str) -> (r: Result<(&P, &PathMap), Error>)
        ensures
            !has_provider(self.config.providers@, provider_name@) ==> (r matches Err(Error::Message(m)) && m@
                == "cannot find provider '"@ + provider_name@ + "' path configuration"@),
            has_provider(self.config.providers@, provider_name@) && !has_map(
                self.config.providers@[first_provider(self.config.providers@, provider_name@)].1.maps@,
                map_id@,
            ) ==> (r matches Err(Error::Message(m)) && m@ == "cannot find path id '"@ + map_id@ + "' in provider '"@
                + provider_name@ + "'"@),
            has_provider(self.config.providers@, provider_name@) && has_map(
                self.config.providers@[first_provider(self.config.providers@, provider_name@)].1.maps@,
                map_id@,
            ) && !registered(self.registry.providers@, provider_name@) ==> (r matches Err(Error::Message(m)) && m@
                == "cannot get initialized provider '"@ + provider_name@ + "'"@),
            has_provider(self.config.providers@, provider_name@) && has_map(
                self.config.providers@[first_provider(self.config.providers@, provider_name@)].1.maps@,
                map_id@,
            ) && registered(self.registry.providers@, provider_name@) ==> r is Ok,
            r is Ok ==> exists|i: int, j: int|
                {
                    &&& 0 <= i < self.config.providers@.len()
                    &&& self.config.providers@[i].0@ == provider_name@
                    &&& forall|k: int| 0 <= k < i ==> (#[trigger] self.config.providers@[k]).0@ != provider_name@
                    &&& 0 <= j < self.config.providers@[i].1.maps@.len()
                    &&& *r->Ok_0.1 == #[trigger] self.config.providers@[i].1.maps@[j]
                    &&& r->Ok_0.1.id@ == map_id@
                    &&& forall|k: int| 0 <= k < j ==> (#[trigger] self.config.providers@[i].1.maps@[k]).id@ != map_id@
                },
            r is Ok ==> exists|i: int|
                0 <= i < self.registry.providers@.len() && (#[trigger] self.registry.providers@[i]).0@
                    == provider_name@ && *r->Ok_0.0 == self.registry.providers@[i].1,
            r is Err ==> r->Err_0 is Message,
    {
        let ps = &self.config.providers;
        let mut i: usize = 0;
        while i < ps.len() && !str_eq(ps[i].0.as_str(), provider_name)
            invariant
                i <= ps@.len(),
                forall|k: int| 0 <= k < i ==> (#[trigger] ps@[k]).0@ != provider_name@,
            decreases ps.len() - i,
        {
            i = i + 1;
        }
        if i == ps.len() {
            return Err(Error::Message(concat3("cannot find provider '", provider_name, "' path configuration")));
        }
        proof {
            let f = first_provider(ps@, provider_name@);
            assert(has_provider(ps@, provider_name@));
            assert(0 <= f < ps@.len() && ps@[f].0@ == provider_name@ && forall|k: int| 0 <= k < f ==> (#[trigger] ps@[k]).0@ != provider_name@);
            if f < i {
            } else if f > i {
                assert(ps@[i as int].0@ == provider_name@);
            }
            assert(f == i);
        }
        let maps = &ps[i].1.maps;
        let mut j: usize = 0;
        while j < maps.len() && !str_eq(maps[j].id.as_str(), map_id)
            invariant
                j <= maps@.len(),
                forall|k: int| 0 <= k < j ==> (#[trigger] maps@[k]).id@ != map_id@,
            decreases maps.len() - j,
        {
            j = j + 1;
        }
        if j == maps.len() {
            let head = concat3("cannot find path id '", map_id, "' in provider '");
            let msg = concat3(head.as_str(), provider_name, "'");
            return Err(Error::Message(msg));
        }
        match self.registry.get(provider_name) {
            Some(p) => Ok((p, &maps[j])),
            None => Err(Error::Message(concat3("cannot get initialized provider '", provider_name, "'"))),
        }
    }
}

/// The mapping a `delete` of `keys` sends: `pm` itself for no keys, else
/// `pm` selecting exactly `keys`, each under its own name.
pub fn delete_pathmap(pm: &PathMap, keys: &[String]) -> (r: PathMap)
    ensures
        keys@.len() == 0 ==> r.keys@ == pm.keys@,
        keys@.len() > 0 ==> forall|k: Seq<char>|
            to_map(r.keys@).contains_key(k) <==> exists|i: int| 0 <= i < keys@.len() && (#[trigger] keys@[i])@ == k,
        keys@.len() > 0 ==> forall|k: Seq<char>| #[trigger] to_map(r.keys@).contains_key(k) ==> to_map(r.keys@)[k] == k,
        r.id == pm.id,
        r.path == pm.path,
        r.protocol == pm.protocol,
        r.decrypt == pm.decrypt,
        r.sensitivity == pm.sensitivity,
        r.redact_with == pm.redact_with,
        r.source == pm.source,
        r.sink == pm.sink,
        r.optional == pm.optional,
{
    let mut r = pm.duplicate();
    if keys.len() == 0 {
        return r;
    }
    let mut subset = StrMap::new();
    proof {
        crate::strmap::lemma_to_map_empty(subset@);
    }
    let mut i: usize = 0;
    while i < keys.len()
        invariant
            i <= keys@.len(),
            forall|k: Seq<char>|
                to_map(subset@).contains_key(k) <==> exists|j: int| 0 <= j < i && (#[trigger] keys@[j])@ == k,
            forall|k: Seq<char>| #[trigger] to_map(subset@).contains_key(k) ==> to_map(subset@)[k] == k,
        decreases keys.len() - i,
    {
        subset.insert(keys[i].clone(), keys[i].clone());
        proof {
            assert forall|k: Seq<char>|
                to_map(subset@).contains_key(k) implies exists|j: int| 0 <= j < i + 1 && (#[trigger] keys@[j])@ == k by {
                if k == keys@[i as int]@ {
                } else {
                    let j = choose|j: int| 0 <= j < i && (#[trigger] keys@[j])@ == k;
                }
            }
        }
        i = i + 1;
    }
    r.keys = subset;
    r
}

/// The first value whose key is `name`, as a template's `key(name=...)` finds it.
pub fn lookup_key<'a>(kvs: &'a [KV], name: &str) -> (r: Option<&'a KV>)
    ensures
        r is None <==> forall|i: int| 0 <= i < kvs@.len() ==> (#[trigger] kvs@[i]).key@ != name@,
        r is Some ==> exists|i: int|
            0 <= i < kvs@.len() && *r->Some_0 == kvs@[i] && kvs@[i].key@ == name@ && forall|j: int|
                0 <= j < i ==> (#[trigger] kvs@[j]).key@ != name@,
{
    let mut i: usize = 0;
    while i < kvs.len()
        invariant
            i <= kvs@.len(),
            forall|j: int| 0 <= j < i ==> (#[trigger] kvs@[j]).key@ != name@,
        decreases kvs.len() - i,
    {
        if str_eq(kvs[i].key.as_str(), name) {
            return Some(&kvs[i]);
        }
        i = i + 1;
    }
    None
}

/// What `collect` keeps of one mapping's outcome: a missing path of an
/// optional mapping yields no values; any other outcome passes through.
pub fn absorb_optional(pm: &PathMap, outcome: Result<Vec<KV>, Error>) -> (r: Result<Vec<KV>, Error>)
    ensures
        pm.optional && outcome is Err && outcome->Err_0 is NotFound ==> r is Ok && r->Ok_0@.len() == 0,
        !(pm.optional && outcome is Err && outcome->Err_0 is NotFound) ==> r == outcome,
{
    match outcome {
        Err(Error::NotFound { path, msg }) => {
            if pm.optional {
                Ok(Vec::new())
            } else {
                Err(Error::NotFound { path, msg })
            }
        },
        other => other,
    }
}

} // verus!
