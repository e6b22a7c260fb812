//! Container creation and stop options, and the configuration the engine
//! is given.

use vstd::prelude::*;

use crate::error::{Error, ErrorKind};
use crate::string_map::{copy_entries, lemma_same_views, pairs_map, pairs_view, StringMap};
use crate::text::{copy_strings, join_pair, split_char, split_on, strings_view};

verus! {

/// The unit in which a size was given.
#[derive(Debug, Clone, Copy, PartialEq, Eq, Structural)]
pub enum Unit {
    Bytes,
    KB,
    MB,
    GB,
}

/// A memory size: a whole number of some unit.
#[derive(Debug, Clone, Copy, PartialEq, Eq, Structural)]
pub struct Size {
    pub value: u64,
    pub unit: Unit,
}

pub open spec fn unit_factor(unit: Unit) -> nat {
    match unit {
        Unit::Bytes => 1,
        Unit::KB => 1024,
        Unit::MB => 1024 * 1024,
        Unit::GB => 1024 * 1024 * 1024,
    }
}

/// The size in bytes, capped at the largest `u64`.
pub open spec fn size_bytes(s: Size) -> u64 {
    if s.value * unit_factor(s.unit) > u64::MAX {
        u64::MAX
    } else {
        (s.value * unit_factor(s.unit)) as u64
    }
}

impl Size {
    pub fn from_bytes(bytes: u64) -> (r: Size)
        ensures
            r == (Size { value: bytes, unit: Unit::Bytes }),
    {
        Size { value: bytes, unit: Unit::Bytes }
    }

    pub fn from_kb(kb: u64) -> (r: Size)
        ensures
            r == (Size { value: kb, unit: Unit::KB }),
    {
        Size { value: kb, unit: Unit::KB }
    }

    pub fn from_mb(mb: u64) -> (r: Size)
        ensures
            r == (Size { value: mb, unit: Unit::MB }),
    {
        Size { value: mb, unit: Unit::MB }
    }

    pub fn from_gb(gb: u64) -> (r: Size)
        ensures
            r == (Size { value: gb, unit: Unit::GB }),
    {
        Size { value: gb, unit: Unit::GB }
    }

    /// The size in bytes, capped at the largest `u64`.
    pub fn bytes(&self) -> (r: u64)
        ensures
            r == size_bytes(*self),
    {
        let factor: u64 = match self.unit {
            Unit::Bytes => 1,
            Unit::KB => 1024,
            Unit::MB => 1024 * 1024,
            Unit::GB => 1024 * 1024 * 1024,
        };
        if self.value > u64::MAX / factor {
            proof {
                assert(self.value * factor > u64::MAX) by (nonlinear_arith)
                    requires
                        self.value > u64::MAX / factor,
                        factor > 0,
                ;
            }
            u64::MAX
        } else {
            proof {
                assert(self.value * factor <= u64::MAX) by (nonlinear_arith)
                    requires
                        self.value <= u64::MAX / factor,
                        factor > 0,
                ;
            }
            self.value * factor
        }
    }
}

/// The form of a health check command.
#[derive(Debug, Clone, Copy, PartialEq, Eq, Structural)]
pub enum HealthcheckForm {
    /// `CMD`: the command and its arguments, run directly.
    Exec,
    /// `CMD-SHELL`: a string that the container's shell runs.
    Shell,
}

pub open spec fn healthcheck_words(form: HealthcheckForm, command: Seq<char>) -> Seq<Seq<char>> {
    match form {
        HealthcheckForm::Exec => seq![seq!['C', 'M', 'D'], command],
        HealthcheckForm::Shell => seq![seq!['C', 'M', 'D', '-', 'S', 'H', 'E', 'L', 'L'], command],
    }
}

/// What a new container is created with, as far as it has been given.
#[derive(Debug, Clone)]
pub struct CreateContainerOptionsBuilder {
    pub image: Option<String>,
    pub environment: Option<StringMap>,
    pub volumes: Option<StringMap>,
    pub labels: Option<StringMap>,
    pub entrypoint: Option<Vec<String>>,
    pub healthcheck: Option<Vec<String>>,
    /// CPU quota in billionths of a core.
    pub cpus: Option<i64>,
    pub memory_swap: Option<Size>,
    pub memory: Option<Size>,
}

/// A finished container configuration, in the engine's terms.
#[derive(Debug, Clone)]
pub struct ContainerConfig {
    pub image: String,
    /// `KEY=value` entries.
    pub env: Option<Vec<String>>,
    /// `host_path:container_path` bind mounts.
    pub binds: Option<Vec<String>>,
    pub labels: Option<Vec<(String, String)>>,
    pub entrypoint: Option<Vec<String>>,
    /// The health check test: `CMD` or `CMD-SHELL`, then the command.
    pub healthcheck: Option<Vec<String>>,
    pub nano_cpus: Option<i64>,
    pub memory_swap: Option<i64>,
    pub memory: Option<i64>,
}

/// The map in `m`, or the empty map.
pub open spec fn map_or_empty(m: Option<StringMap>) -> Map<Seq<char>, Seq<char>> {
    match m {
        Some(m) => m@,
        None => Map::empty(),
    }
}

pub open spec fn map_wf(m: Option<StringMap>) -> bool {
    match m {
        Some(m) => m.wf(),
        None => true,
    }
}

/// `key`, `sep`, `value` for each entry, in order.
pub open spec fn joined_entries(entries: Seq<(String, String)>, sep: char) -> Seq<Seq<char>> {
    entries.map_values(|e: (String, String)| e.0@ + seq![sep] + e.1@)
}

/// The label that marks a container as made by this toolkit.
pub open spec fn test_label_key() -> Seq<char> {
    seq!['t', 'e', 's', 't', '.', 'c', 'o', 'n', 't', 'a', 'i', 'n', 'e', 'r']
}

pub open spec fn test_label_value() -> Seq<char> {
    seq!['t', 'r', 'u', 'e']
}

/// The characters of each string of `o`, if there are strings.
pub open spec fn strings_of(o: Option<Vec<String>>) -> Option<Seq<Seq<char>>> {
    match o {
        Some(v) => Some(strings_view(v@)),
        None => None,
    }
}

/// `n`, capped at the largest `i64`.
pub open spec fn capped_i64(n: u64) -> i64 {
    if n > i64::MAX as u64 {
        i64::MAX
    } else {
        n as i64
    }
}

/// The byte count that the engine is given for a size, if one is set.
pub open spec fn bytes_as_i64(s: Option<Size>) -> Option<i64> {
    match s {
        Some(s) => Some(capped_i64(size_bytes(s))),
        None => None,
    }
}

fn limit_i64(n: u64) -> (r: i64)
    ensures
        r == capped_i64(n),
{
    if n > i64::MAX as u64 {
        i64::MAX
    } else {
        n as i64
    }
}

pub open spec fn joined_of(m: Option<StringMap>, sep: char) -> Option<Seq<Seq<char>>> {
    match m {
        Some(m) => Some(joined_entries(m.entries@, sep)),
        None => None,
    }
}

/// `c` is the configuration that `b` describes, labels aside.
pub open spec fn config_of(b: CreateContainerOptionsBuilder, c: ContainerConfig) -> bool {
    &&& b.image matches Some(i) && c.image@ == i@
    &&& strings_of(c.env) == joined_of(b.environment, '=')
    &&& strings_of(c.binds) == joined_of(b.volumes, ':')
    &&& strings_of(c.entrypoint) == strings_of(b.entrypoint)
    &&& strings_of(c.healthcheck) == strings_of(b.healthcheck)
    &&& c.nano_cpus == b.cpus
    &&& c.memory_swap == bytes_as_i64(b.memory_swap)
    &&& c.memory == bytes_as_i64(b.memory)
}

/// The labels of `c` are those of `b`, in the same order.
pub open spec fn labels_of(b: CreateContainerOptionsBuilder, c: ContainerConfig) -> bool {
    match b.labels {
        Some(m) => c.labels matches Some(l) && pairs_view(l@) == pairs_view(m.entries@),
        None => c.labels is None,
    }
}

fn copy_option_strings(o: &Option<Vec<String>>) -> (r: Option<Vec<String>>)
    ensures
        strings_of(r) == strings_of(*o),
{
    match o {
        Some(v) => Some(copy_strings(v)),
        None => None,
    }
}

/// The health check test of the given form.
fn healthcheck_test(form: HealthcheckForm, command: &str) -> (r: Vec<String>)
    ensures
        strings_view(r@) == healthcheck_words(form, command@),
{
    proof {
        reveal_strlit("CMD");
        reveal_strlit("CMD-SHELL");
    }
    let first = match form {
        HealthcheckForm::Exec => String::from_str("CMD"),
        HealthcheckForm::Shell => String::from_str("CMD-SHELL"),
    };
    assert(first@ == healthcheck_words(form, command@)[0]);
    let second = String::from_str(command);
    let r = vec![first, second];
    assert(strings_view(r@) =~= healthcheck_words(form, command@));
    r
}

/// Sets `key` to `value` in `m`, creating the map if there is none.
fn insert_into(m: Option<StringMap>, key: &str, value: &str) -> (r: Option<StringMap>)
    requires
        map_wf(m),
    ensures
        r is Some,
        map_wf(r),
        map_or_empty(r) == map_or_empty(m).insert(key@, value@),
{
    let mut map = match m {
        Some(map) => map,
        None => StringMap::new(),
    };
    map.insert(String::from_str(key), String::from_str(value));
    Some(map)
}

/// Renders each entry as `key`, `sep`, `value`.
fn join_entries(m: &StringMap, sep: &str) -> (r: Vec<String>)
    requires
        sep@.len() == 1,
    ensures
        strings_view(r@) == joined_entries(m.entries@, sep@[0]),
{
    let mut out: Vec<String> = Vec::new();
    let mut i: usize = 0;
    while i < m.entries.len()
        invariant
            sep@.len() == 1,
            i <= m.entries@.len(),
            strings_view(out@) == joined_entries(m.entries@.take(i as int), sep@[0]),
        decreases m.entries.len() - i,
    {
        let s = join_pair(m.entries[i].0.as_str(), sep, m.entries[i].1.as_str());
        let ghost before = strings_view(out@);
        out.push(s);
        proof {
            assert(sep@ =~= seq![sep@[0]]);
            assert(strings_view(out@) =~= before.push(s@));
            assert(joined_entries(m.entries@.take(i + 1), sep@[0]) =~= joined_entries(m.entries@.take(i as int), sep@[0]).push(s@));
        }
        i = i + 1;
    }
    assert(m.entries@.take(m.entries@.len() as int) =~= m.entries@);
    out
}

impl Default for CreateContainerOptionsBuilder {
    fn default() -> (r: CreateContainerOptionsBuilder)
        ensures
            r.wf(),
            r == (CreateContainerOptionsBuilder {
                image: None,
                environment: None,
                volumes: None,
                labels: None,
                entrypoint: None,
                healthcheck: None,
                cpus: None,
                memory_swap: None,
                memory: None,
            }),
    {
        CreateContainerOptionsBuilder {
            image: None,
            environment: None,
            volumes: None,
            labels: None,
            entrypoint: None,
            healthcheck: None,
            cpus: None,
            memory_swap: None,
            memory: None,
        }
    }
}

impl CreateContainerOptionsBuilder {
    /// The maps hold each key once.
    pub open spec fn wf(&self) -> bool {
        &&& map_wf(self.environment)
        &&& map_wf(self.volumes)
        &&& map_wf(self.labels)
    }

    /// Whether the maps hold each key once, as they do when only the
    /// methods of this type filled them.
    pub fn is_well_formed(&self) -> (r: bool)
        ensures
            r == self.wf(),
    {
        (match &self.environment {
            Some(m) => m.keys_distinct(),
            None => true,
        }) && (match &self.volumes {
            Some(m) => m.keys_distinct(),
            None => true,
        }) && (match &self.labels {
            Some(m) => m.keys_distinct(),
            None => true,
        })
    }

    pub fn with_image(self, image: &str) -> (r: Self)
        ensures
            r.image matches Some(i) && i@ == image@,
            r == (Self { image: r.image, ..self }),
    {
        Self { image: Some(String::from_str(image)), ..self }
    }

    /// Sets the environment variable `key` to `value`.
    pub fn with_environment(self, key: &str, value: &str) -> (r: Self)
        requires
            self.wf(),
        ensures
            r.wf(),
            r.environment is Some,
            map_or_empty(r.environment) == map_or_empty(self.environment).insert(key@, value@),
            r == (Self { environment: r.environment, ..self }),
    {
        let environment = insert_into(self.environment, key, value);
        Self { environment, ..self }
    }

    /// Mounts the host path `name` at `container_path`.
    pub fn with_volume(self, name: &str, container_path: &str) -> (r: Self)
        requires
            self.wf(),
        ensures
            r.wf(),
            r.volumes is Some,
            map_or_empty(r.volumes) == map_or_empty(self.volumes).insert(name@, container_path@),
            r == (Self { volumes: r.volumes, ..self }),
    {
        let volumes = insert_into(self.volumes, name, container_path);
        Self { volumes, ..self }
    }

    /// Sets the label `key` to `value`.
    pub fn with_label(self, key: &str, value: &str) -> (r: Self)
        requires
            self.wf(),
        ensures
            r.wf(),
            r.labels is Some,
            map_or_empty(r.labels) == map_or_empty(self.labels).insert(key@, value@),
            r == (Self { labels: r.labels, ..self }),
    {
        let labels = insert_into(self.labels, key, value);
        Self { labels, ..self }
    }

    /// Appends the space-separated words of `value` to the entrypoint.
    pub fn with_entrypoint(self, value: &str) -> (r: Self)
        ensures
            r.entrypoint matches Some(e) && strings_view(e@) == match self.entrypoint {
                Some(old) => strings_view(old@),
                None => seq![],
            } + split_on(value@, ' '),
            r == (Self { entrypoint: r.entrypoint, ..self }),
    {
        let mut entrypoint = match self.entrypoint {
            Some(e) => e,
            None => Vec::new(),
        };
        let ghost before = strings_view(entrypoint@);
        let mut words = split_char(value, ' ');
        let ghost added = strings_view(words@);
        entrypoint.append(&mut words);
        assert(strings_view(entrypoint@) =~= before + added);
        Self { entrypoint: Some(entrypoint), ..self }
    }

    /// Replaces the health check by `CMD` and the command `value`.
    pub fn with_healthcheck_command(self, value: &str) -> (r: Self)
        ensures
            r.healthcheck matches Some(h) && strings_view(h@) == healthcheck_words(HealthcheckForm::Exec, value@),
            r == (Self { healthcheck: r.healthcheck, ..self }),
    {
        Self { healthcheck: Some(healthcheck_test(HealthcheckForm::Exec, value)), ..self }
    }

    /// Replaces the health check by `CMD-SHELL` and the shell command `value`.
    pub fn with_healthcheck_command_shell(self, value: &str) -> (r: Self)
        ensures
            r.healthcheck matches Some(h) && strings_view(h@) == healthcheck_words(HealthcheckForm::Shell, value@),
            r == (Self { healthcheck: r.healthcheck, ..self }),
    {
        Self { healthcheck: Some(healthcheck_test(HealthcheckForm::Shell, value)), ..self }
    }

    /// Sets the CPU quota, in billionths of a core.
    pub fn with_cpus(self, nano_cpus: i64) -> (r: Self)
        ensures
            r == (Self { cpus: Some(nano_cpus), ..self }),
    {
        Self { cpus: Some(nano_cpus), ..self }
    }

    pub fn with_memory_swap(self, memory_swap: Size) -> (r: Self)
        ensures
            r == (Self { memory_swap: Some(memory_swap), ..self }),
    {
        Self { memory_swap: Some(memory_swap), ..self }
    }

    pub fn with_memory(self, memory: Size) -> (r: Self)
        ensures
            r == (Self { memory: Some(memory), ..self }),
    {
        Self { memory: Some(memory), ..self }
    }

    /// The configuration that the engine is given. Fails with a
    /// configuration error exactly when no image was set.
    pub fn build(&self) -> (r: Result<ContainerConfig, Error>)
        ensures
            self.image is None <==> r is Err,
            r matches Err(e) ==> e.kind == ErrorKind::Configuration,
            r matches Ok(c) ==> config_of(*self, c) && labels_of(*self, c),
    {
        let image = match &self.image {
            Some(image) => image.clone(),
            None => {
                return Err(Error::new(ErrorKind::Configuration, String::from_str("Image is required")));
            },
        };
        proof {
            reveal_strlit("=");
            reveal_strlit(":");
        }
        let env = match &self.environment {
            Some(m) => Some(join_entries(m, "=")),
            None => None,
        };
        let binds = match &self.volumes {
            Some(m) => Some(join_entries(m, ":")),
            None => None,
        };
        let labels = match &self.labels {
            Some(m) => Some(copy_entries(&m.entries)),
            None => None,
        };
        let memory_swap = match &self.memory_swap {
            Some(s) => Some(limit_i64(s.bytes())),
            None => None,
        };
        let memory = match &self.memory {
            Some(s) => Some(limit_i64(s.bytes())),
            None => None,
        };
        Ok(ContainerConfig {
            image,
            env,
            binds,
            labels,
            entrypoint: copy_option_strings(&self.entrypoint),
            healthcheck: copy_option_strings(&self.healthcheck),
            nano_cpus: self.cpus,
            memory_swap,
            memory,
        })
    }

    /// The configuration of a container made for a test: `build` after
    /// setting the label `test.container=true`, by which leftover test
    /// containers are found later.
    pub fn finalize(self) -> (r: Result<ContainerConfig, Error>)
        requires
            self.wf(),
        ensures
            self.image is None <==> r is Err,
            r matches Err(e) ==> e.kind == ErrorKind::Configuration,
            r matches Ok(c) ==> {
                &&& config_of(self, c)
                &&& c.labels matches Some(l) && pairs_map(l@) == map_or_empty(self.labels).insert(
                    test_label_key(),
                    test_label_value(),
                )
            },
    {
        proof {
            reveal_strlit("test.container");
            reveal_strlit("true");
        }
        let b = self.with_label("test.container", "true");
        let r = b.build();
        proof {
            if r is Ok {
                let m = b.labels->Some_0;
                let l = r->Ok_0.labels->Some_0;
                lemma_same_views(m.entries@, l@);
                assert("test.container"@ == test_label_key());
                assert("true"@ == test_label_value());
            }
        }
        r
    }
}

/// How long the engine waits for a container to stop before it kills it.
#[derive(Debug, Clone, Copy, PartialEq, Eq, Structural)]
pub struct StopContainerOptionsBuilder {
    /// The grace period, in seconds.
    pub wait_secs: u64,
}

impl Default for StopContainerOptionsBuilder {
    /// No grace period: the container is stopped at once.
    fn default() -> (r: StopContainerOptionsBuilder)
        ensures
            r.wait_secs == 0,
    {
        StopContainerOptionsBuilder { wait_secs: 0 }
    }
}

impl StopContainerOptionsBuilder {
    pub fn with_wait(self, secs: u64) -> (r: Self)
        ensures
            r.wait_secs == secs,
    {
        StopContainerOptionsBuilder { wait_secs: secs }
    }

    /// The engine's stop timeout `t`, in seconds.
    pub fn build(&self) -> (r: i64)
        ensures
            r == capped_i64(self.wait_secs),
    {
        limit_i64(self.wait_secs)
    }
}

} // verus!
