//! The helper's configuration: which cluster and which account each
//! environment stands for, how to reach Teleport, and where its tools lie.

use crate::shell::{join_path, path_below};
use crate::text::same_str;
use vstd::prelude::*;

verus! {

/// The map that a list of names and values stands for when they are put in
/// one after the other.
pub open spec fn map_of(entries: Seq<(String, String)>) -> Map<Seq<char>, Seq<char>>
    decreases entries.len(),
{
    if entries.len() == 0 {
        Map::empty()
    } else {
        map_of(entries.drop_last()).insert(entries.last().0@, entries.last().1@)
    }
}

/// Whether no name stands twice in the list.
pub open spec fn names_distinct(entries: Seq<(String, String)>) -> bool {
    forall|i: int, j: int|
        0 <= i < j < entries.len() ==> (#[trigger] entries[i]).0@ != (#[trigger] entries[j]).0@
}

/// The names of a list with distinct names are the domain of its map, and
/// each entry's value is what the map holds for its name.
pub proof fn lemma_map_of(entries: Seq<(String, String)>)
    requires
        names_distinct(entries),
    ensures
        forall|i: int|
            0 <= i < entries.len() ==> map_of(entries).contains_key((#[trigger] entries[i]).0@)
                && map_of(entries)[entries[i].0@] == entries[i].1@,
        forall|name: Seq<char>| #[trigger]
            map_of(entries).contains_key(name) ==> exists|i: int|
                0 <= i < entries.len() && (#[trigger] entries[i]).0@ == name,
    decreases entries.len(),
{
    if entries.len() > 0 {
        let init = entries.drop_last();
        assert forall|i: int, j: int| 0 <= i < j < init.len() implies (#[trigger] init[i]).0@ != (
        #[trigger] init[j]).0@ by {
            assert(init[i] == entries[i]);
            assert(init[j] == entries[j]);
        }
        lemma_map_of(init);
        assert forall|i: int| 0 <= i < entries.len() implies map_of(entries).contains_key(
            (#[trigger] entries[i]).0@,
        ) && map_of(entries)[entries[i].0@] == entries[i].1@ by {
            if i < init.len() {
                assert(init[i] == entries[i]);
                assert(entries[i].0@ != entries[entries.len() - 1].0@);
            }
        }
        assert forall|name: Seq<char>| #[trigger]
            map_of(entries).contains_key(name) implies exists|i: int|
            0 <= i < entries.len() && (#[trigger] entries[i]).0@ == name by {
            if name == entries.last().0@ {
                assert(entries[entries.len() - 1].0@ == name);
            } else {
                assert(map_of(init).contains_key(name));
                let i = choose|i: int| 0 <= i < init.len() && (#[trigger] init[i]).0@ == name;
                assert(entries[i] == init[i]);
            }
        }
    }
}

/// Lists with the same names and values stand for the same map, and the
/// names of one are distinct where those of the other are.
pub proof fn lemma_map_same(a: Seq<(String, String)>, b: Seq<(String, String)>)
    requires
        a.len() == b.len(),
        forall|i: int| 0 <= i < a.len() ==> (#[trigger] b[i]).0@ == a[i].0@ && b[i].1@ == a[i].1@,
    ensures
        map_of(a) == map_of(b),
        names_distinct(a) ==> names_distinct(b),
    decreases a.len(),
{
    if a.len() > 0 {
        let x = a.drop_last();
        let y = b.drop_last();
        assert forall|i: int| 0 <= i < x.len() implies (#[trigger] y[i]).0@ == x[i].0@ && y[i].1@
            == x[i].1@ by {
            assert(y[i] == b[i]);
            assert(x[i] == a[i]);
        }
        lemma_map_same(x, y);
        assert(b[b.len() - 1].0@ == a[a.len() - 1].0@);
    }
    if names_distinct(a) {
        assert forall|i: int, j: int| 0 <= i < j < b.len() implies (#[trigger] b[i]).0@ != (
        #[trigger] b[j]).0@ by {
            assert(b[i].0@ == a[i].0@);
            assert(b[j].0@ == a[j].0@);
        }
    }
}

/// A map from names to values that keeps the order in which names came in.
/// No name stands in it twice.
pub struct NameMap {
    entries: Vec<(String, String)>,
}

impl View for NameMap {
    type V = Map<Seq<char>, Seq<char>>;

    /// What the map holds for each name.
    closed spec fn view(&self) -> Map<Seq<char>, Seq<char>> {
        map_of(self.entries@)
    }
}

impl NameMap {
    /// No name stands twice.
    #[verifier::type_invariant]
    spec fn distinct(&self) -> bool {
        names_distinct(self.entries@)
    }

    /// The names in the order in which they came in.
    pub closed spec fn names(&self) -> Seq<Seq<char>> {
        Seq::new(self.entries@.len(), |i: int| self.entries@[i].0@)
    }

    /// The map without any name.
    pub fn new() -> (map: NameMap)
        ensures
            map@ == Map::<Seq<char>, Seq<char>>::empty(),
            map.names() == Seq::<Seq<char>>::empty(),
    {
        let map = NameMap { entries: Vec::new() };
        assert(map.names() =~= Seq::<Seq<char>>::empty());
        map
    }

    /// Position of `name` among the entries, if it is there.
    fn position(&self, name: &str) -> (at: Option<usize>)
        ensures
            match at {
                Some(i) => i < self.entries@.len() && self.entries@[i as int].0@ == name@,
                None => forall|i: int|
                    0 <= i < self.entries@.len() ==> (#[trigger] self.entries@[i]).0@ != name@,
            },
    {
        let mut i: usize = 0;
        while i < self.entries.len()
            invariant
                i <= self.entries.len(),
                forall|j: int| 0 <= j < i ==> (#[trigger] self.entries@[j]).0@ != name@,
            decreases self.entries.len() - i,
        {
            if same_str(self.entries[i].0.as_str(), name) {
                return Some(i);
            }
            i += 1;
        }
        None
    }

    /// The value for `name`, if the map holds one.
    pub fn get(&self, name: &str) -> (value: Option<&String>)
        ensures
            match value {
                Some(v) => self@.contains_key(name@) && self@[name@] == v@,
                None => !self@.contains_key(name@),
            },
    {
        proof {
            use_type_invariant(self);
            lemma_map_of(self.entries@);
        }
        match self.position(name) {
            Some(i) => Some(&self.entries[i].1),
            None => None,
        }
    }

    /// A copy of the entries.
    fn copied(&self) -> (copy: Vec<(String, String)>)
        ensures
            copy@.len() == self.entries@.len(),
            forall|i: int|
                0 <= i < copy@.len() ==> (#[trigger] copy@[i]).0@ == self.entries@[i].0@
                    && copy@[i].1@ == self.entries@[i].1@,
    {
        let mut copy: Vec<(String, String)> = Vec::new();
        let mut i: usize = 0;
        while i < self.entries.len()
            invariant
                i <= self.entries.len(),
                copy@.len() == i,
                forall|j: int|
                    0 <= j < i ==> (#[trigger] copy@[j]).0@ == self.entries@[j].0@ && copy@[j].1@
                        == self.entries@[j].1@,
            decreases self.entries.len() - i,
        {
            copy.push((self.entries[i].0.clone(), self.entries[i].1.clone()));
            i += 1;
        }
        copy
    }

    /// Puts `value` in for `name`, in place of what the map held for it.
    pub fn insert(&mut self, name: String, value: String)
        ensures
            final(self)@ == old(self)@.insert(name@, value@),
            final(self).names() == if old(self)@.contains_key(name@) {
                old(self).names()
            } else {
                old(self).names().push(name@)
            },
    {
        proof {
            use_type_invariant(&*self);
            lemma_map_of(self.entries@);
        }
        let ghost before = self.entries@;
        let ghost names_before = self.names();
        let at = self.position(name.as_str());
        let mut fresh = self.copied();
        proof {
            lemma_map_same(before, fresh@);
        }
        match at {
            Some(i) => {
                let ghost copied = fresh@;
                fresh.set(i, (name, value));
                proof {
                    let after = fresh@;
                    lemma_map_of(copied);
                    assert forall|a: int, b: int| 0 <= a < b < after.len() implies (
                    #[trigger] after[a]).0@ != (#[trigger] after[b]).0@ by {
                        assert(after[a].0@ == copied[a].0@);
                        assert(after[b].0@ == copied[b].0@);
                    }
                    lemma_map_of(after);
                    let want = map_of(copied).insert(name@, value@);
                    assert forall|k: Seq<char>| #[trigger]
                        map_of(after).contains_key(k) == want.contains_key(k) by {
                        if map_of(after).contains_key(k) {
                            let a = choose|a: int|
                                0 <= a < after.len() && (#[trigger] after[a]).0@ == k;
                            assert(copied[a].0@ == k);
                        }
                        if map_of(copied).contains_key(k) {
                            let a = choose|a: int|
                                0 <= a < copied.len() && (#[trigger] copied[a]).0@ == k;
                            assert(after[a].0@ == k);
                        }
                        if k == name@ {
                            assert(after[i as int].0@ == k);
                        }
                    }
                    assert forall|k: Seq<char>| #[trigger]
                        map_of(after).contains_key(k) implies map_of(after)[k] == want[k] by {
                        let a = choose|a: int|
                            0 <= a < after.len() && (#[trigger] after[a]).0@ == k;
                        if a != i {
                            assert(after[a] == copied[a]);
                        }
                    }
                    assert(map_of(after) =~= want);
                    assert(Seq::new(after.len(), |j: int| after[j].0@) =~= names_before);
                }
            },
            None => {
                let ghost copied = fresh@;
                fresh.push((name, value));
                proof {
                    assert(fresh@.drop_last() =~= copied);
                    assert(Seq::new(fresh@.len(), |j: int| fresh@[j].0@) =~= names_before.push(
                        name@,
                    ));
                    if map_of(before).contains_key(name@) {
                        let a = choose|a: int|
                            0 <= a < before.len() && (#[trigger] before[a]).0@ == name@;
                    }
                }
            },
        }
        self.entries = fresh;
    }

    /// The names of the map, each once, in the order in which they came in.
    pub fn keys(&self) -> (names: Vec<&String>)
        ensures
            names@.len() == self.names().len(),
            forall|i: int| 0 <= i < names@.len() ==> (#[trigger] names@[i])@ == self.names()[i],
            forall|i: int| 0 <= i < names@.len() ==> self@.contains_key((#[trigger] names@[i])@),
            forall|name: Seq<char>| #[trigger]
                self@.contains_key(name) ==> exists|i: int|
                    0 <= i < names@.len() && (#[trigger] names@[i])@ == name,
            forall|i: int, j: int|
                0 <= i < j < names@.len() ==> (#[trigger] names@[i])@ != (#[trigger] names@[j])@,
    {
        let mut names: Vec<&String> = Vec::new();
        let mut i: usize = 0;
        while i < self.entries.len()
            invariant
                i <= self.entries.len(),
                names@.len() == i,
                forall|j: int| 0 <= j < i ==> (#[trigger] names@[j])@ == self.entries@[j].0@,
            decreases self.entries.len() - i,
        {
            names.push(&self.entries[i].0);
            i += 1;
        }
        proof {
            use_type_invariant(self);
            lemma_map_of(self.entries@);
            assert forall|name: Seq<char>| #[trigger]
                self@.contains_key(name) implies exists|i: int|
                0 <= i < names@.len() && (#[trigger] names@[i])@ == name by {
                let a = choose|a: int|
                    0 <= a < self.entries@.len() && (#[trigger] self.entries@[a]).0@ == name;
                assert(names@[a]@ == name);
            }
            assert forall|a: int, b: int| 0 <= a < b < names@.len() implies (#[trigger] names@[a])@
                != (#[trigger] names@[b])@ by {
                assert(self.entries@[a].0@ != self.entries@[b].0@);
            }
        }
        names
    }

    /// Number of names in the map.
    pub fn len(&self) -> (n: usize)
        ensures
            n == self.names().len(),
    {
        self.entries.len()
    }
}

/// How to reach Teleport.
pub struct TeleportConfig {
    pub proxy: String,
    pub auth_type: String,
    pub timeout_seconds: u64,
}

/// Where the tools lie that the helper runs.
pub struct PathsConfig {
    pub tsh: String,
    pub kubectl: String,
    pub aws_cli: String,
    pub temp_dir: String,
}

/// The configuration as a whole.
pub struct Config {
    pub kube: NameMap,
    pub aws: NameMap,
    pub teleport: TeleportConfig,
    pub paths: PathsConfig,
}

/// The cluster of each environment, as the helper ships it.
pub open spec fn default_kube() -> Map<Seq<char>, Seq<char>> {
    Map::<Seq<char>, Seq<char>>::empty().insert("dev"@, "aslive-dev-eks-blue"@).insert(
        "sandbox"@,
        "aslive-sandbox-eks-blue"@,
    ).insert("staging"@, "aslive-staging-eks-blue"@).insert(
        "usstaging"@,
        "aslive-usstaging-eks-blue"@,
    ).insert("admin"@, "headquarter-admin-eks-green"@).insert("prod"@, "live-prod-eks-blue"@).insert(
        "usprod"@,
        "live-usprod-eks-blue"@,
    ).insert("corepgblue"@, "platform-corepgblue-eks-blue"@).insert(
        "corepggreen"@,
        "platform-corepggreen-eks-green"@,
    )
}

/// The account of each environment, as the helper ships it.
pub open spec fn default_aws() -> Map<Seq<char>, Seq<char>> {
    Map::<Seq<char>, Seq<char>>::empty().insert("dev"@, "yl-development"@).insert(
        "sandbox"@,
        "yl-sandbox"@,
    ).insert("staging"@, "yl-staging"@).insert("usstaging"@, "yl-usstaging"@).insert(
        "admin"@,
        "yl-admin"@,
    ).insert("prod"@, "yl-production"@).insert("usprod"@, "yl-usproduction"@).insert(
        "corepgblue"@,
        "yl-corepgblue"@,
    ).insert("corepggreen"@, "yl-corepggreen"@).insert("corepg"@, "yl-coreplayground"@)
}

/// Puts a pair of literals into a map.
fn put(map: &mut NameMap, name: &str, value: &str)
    ensures
        final(map)@ == old(map)@.insert(name@, value@),
{
    map.insert(String::from_str(name), String::from_str(value));
}

impl Config {
    /// The configuration that the helper starts from, with `temp_dir` as
    /// the directory for temporary files.
    pub fn default_with(temp_dir: &str) -> (config: Config)
        ensures
            config.kube@ == default_kube(),
            config.aws@ == default_aws(),
            config.teleport.proxy@ == "youlend.teleport.sh:443"@,
            config.teleport.auth_type@ == "ad"@,
            config.teleport.timeout_seconds == 15,
            config.paths.tsh@ == "tsh"@,
            config.paths.kubectl@ == "kubectl"@,
            config.paths.aws_cli@ == "aws"@,
            config.paths.temp_dir@ == temp_dir@,
    {
        let mut kube = NameMap::new();
        put(&mut kube, "dev", "aslive-dev-eks-blue");
        put(&mut kube, "sandbox", "aslive-sandbox-eks-blue");
        put(&mut kube, "staging", "aslive-staging-eks-blue");
        put(&mut kube, "usstaging", "aslive-usstaging-eks-blue");
        put(&mut kube, "admin", "headquarter-admin-eks-green");
        put(&mut kube, "prod", "live-prod-eks-blue");
        put(&mut kube, "usprod", "live-usprod-eks-blue");
        put(&mut kube, "corepgblue", "platform-corepgblue-eks-blue");
        put(&mut kube, "corepggreen", "platform-corepggreen-eks-green");
        let mut aws = NameMap::new();
        put(&mut aws, "dev", "yl-development");
        put(&mut aws, "sandbox", "yl-sandbox");
        put(&mut aws, "staging", "yl-staging");
        put(&mut aws, "usstaging", "yl-usstaging");
        put(&mut aws, "admin", "yl-admin");
        put(&mut aws, "prod", "yl-production");
        put(&mut aws, "usprod", "yl-usproduction");
        put(&mut aws, "corepgblue", "yl-corepgblue");
        put(&mut aws, "corepggreen", "yl-corepggreen");
        put(&mut aws, "corepg", "yl-coreplayground");
        Config {
            kube,
            aws,
            teleport: TeleportConfig {
                proxy: String::from_str("youlend.teleport.sh:443"),
                auth_type: String::from_str("ad"),
                timeout_seconds: 15,
            },
            paths: PathsConfig {
                tsh: String::from_str("tsh"),
                kubectl: String::from_str("kubectl"),
                aws_cli: String::from_str("aws"),
                temp_dir: String::from_str(temp_dir),
            },
        }
    }

    /// The cluster that the environment `env` stands for.
    pub fn get_kube_cluster(&self, env: &str) -> (cluster: Option<&String>)
        ensures
            match cluster {
                Some(c) => self.kube@.contains_key(env@) && self.kube@[env@] == c@,
                None => !self.kube@.contains_key(env@),
            },
    {
        self.kube.get(env)
    }

    /// The account that the environment `env` stands for.
    pub fn get_aws_account(&self, env: &str) -> (account: Option<&String>)
        ensures
            match account {
                Some(a) => self.aws@.contains_key(env@) && self.aws@[env@] == a@,
                None => !self.aws@.contains_key(env@),
            },
    {
        self.aws.get(env)
    }

    /// The environments that have a cluster, each once.
    pub fn list_kube_envs(&self) -> (envs: Vec<&String>)
        ensures
            forall|i: int| 0 <= i < envs@.len() ==> self.kube@.contains_key((#[trigger] envs@[i])@),
            forall|name: Seq<char>| #[trigger]
                self.kube@.contains_key(name) ==> exists|i: int|
                    0 <= i < envs@.len() && (#[trigger] envs@[i])@ == name,
            forall|i: int, j: int|
                0 <= i < j < envs@.len() ==> (#[trigger] envs@[i])@ != (#[trigger] envs@[j])@,
    {
        self.kube.keys()
    }

    /// The environments that have an account, each once.
    pub fn list_aws_envs(&self) -> (envs: Vec<&String>)
        ensures
            forall|i: int| 0 <= i < envs@.len() ==> self.aws@.contains_key((#[trigger] envs@[i])@),
            forall|name: Seq<char>| #[trigger]
                self.aws@.contains_key(name) ==> exists|i: int|
                    0 <= i < envs@.len() && (#[trigger] envs@[i])@ == name,
            forall|i: int, j: int|
                0 <= i < j < envs@.len() ==> (#[trigger] envs@[i])@ != (#[trigger] envs@[j])@,
    {
        self.aws.keys()
    }
}

/// Where the configuration lies below a home directory.
pub open spec fn config_path_of(home: Seq<char>) -> Seq<char> {
    path_below(path_below(path_below(home, ".config"@), "th"@), "config.toml"@)
}

impl Config {
    /// Where the configuration lies; nowhere without a home directory.
    pub fn get_config_path(home: Option<&str>) -> (path: Option<String>)
        ensures
            match path {
                Some(p) => home is Some && p@ == config_path_of(home->0@),
                None => home is None,
            },
    {
        match home {
            None => None,
            Some(dir) => {
                let a = join_path(dir, ".config");
                let b = join_path(a.as_str(), "th");
                Some(join_path(b.as_str(), "config.toml"))
            },
        }
    }
}

} // verus!
