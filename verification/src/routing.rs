//! The routing table: named service descriptors, validated once when the
//! table is built and read-only afterwards.

use vstd::prelude::*;
use vstd::string::*;
use crate::error::ProxyError;
use crate::text::starts_with;

verus! {

/// One routable backend.
#[derive(Debug)]
pub struct ServiceConfig {
    /// Hostname or address of the upstream.
    pub host: String,
    /// Port of the upstream.
    pub port: u16,
    /// Request paths that start with this prefix go to this service.
    pub prefix: String,
    /// Version number written into rewritten paths.
    pub api_version: u16,
    /// Whether the prefix is removed and the path rewritten.
    pub strip_prefix: bool,
    /// Remainders starting with one of these get no version prefix.
    pub skip_prefix_for: Vec<String>,
}

/// The mathematical content of a [`ServiceConfig`].
pub struct ServiceSpec {
    pub host: Seq<char>,
    pub port: nat,
    pub prefix: Seq<char>,
    pub api_version: nat,
    pub strip_prefix: bool,
    pub skip_prefix_for: Seq<Seq<char>>,
}

/// The fields of a descriptor as a configuration document gives them:
/// each may be missing, and the numbers are not yet held to their ranges.
#[derive(Debug)]
pub struct ServiceFields {
    pub host: Option<String>,
    pub port: Option<i64>,
    pub prefix: Option<String>,
    pub api_version: Option<i64>,
    pub strip_prefix: Option<bool>,
    pub skip_prefix_for: Option<Vec<String>>,
}

/// The mathematical content of [`ServiceFields`].
pub struct FieldsSpec {
    pub host: Option<Seq<char>>,
    pub port: Option<int>,
    pub prefix: Option<Seq<char>>,
    pub api_version: Option<int>,
    pub strip_prefix: Option<bool>,
    pub skip_prefix_for: Option<Seq<Seq<char>>>,
}

/// The fields that every descriptor must have.
#[derive(Debug, Clone, Copy)]
pub enum Field {
    Host,
    Port,
    Prefix,
    ApiVersion,
    StripPrefix,
    SkipPrefixFor,
}

/// Why a table entry is refused.
#[derive(Debug, Clone, Copy)]
pub enum ConfigFault {
    /// The document does not give this field.
    MissingField(Field),
    /// The descriptor's port is outside 1..=65535.
    PortOutOfRange,
    /// The descriptor's version number is outside 0..=65535.
    ApiVersionOutOfRange,
    /// The descriptor's host is the empty string.
    EmptyHost,
    /// The descriptor's prefix is the empty string.
    EmptyPrefix,
    /// An earlier entry already has this service name.
    DuplicateName,
}

/// The views of a list of strings.
pub open spec fn strings_view(list: Seq<String>) -> Seq<Seq<char>> {
    Seq::new(list.len(), |i: int| list[i]@)
}

impl View for ServiceFields {
    type V = FieldsSpec;

    open spec fn view(&self) -> FieldsSpec {
        FieldsSpec {
            host: match self.host {
                Some(h) => Some(h@),
                None => None,
            },
            port: match self.port {
                Some(p) => Some(p as int),
                None => None,
            },
            prefix: match self.prefix {
                Some(p) => Some(p@),
                None => None,
            },
            api_version: match self.api_version {
                Some(v) => Some(v as int),
                None => None,
            },
            strip_prefix: self.strip_prefix,
            skip_prefix_for: match self.skip_prefix_for {
                Some(l) => Some(strings_view(l@)),
                None => None,
            },
        }
    }
}

impl FieldsSpec {
    /// The first rule that the fields break: a missing field, in the
    /// order host, port, prefix, version, strip flag, exemption list;
    /// then a port or a version number outside its range.
    pub open spec fn fault(self) -> Option<ConfigFault> {
        if self.host is None {
            Some(ConfigFault::MissingField(Field::Host))
        } else if self.port is None {
            Some(ConfigFault::MissingField(Field::Port))
        } else if self.prefix is None {
            Some(ConfigFault::MissingField(Field::Prefix))
        } else if self.api_version is None {
            Some(ConfigFault::MissingField(Field::ApiVersion))
        } else if self.strip_prefix is None {
            Some(ConfigFault::MissingField(Field::StripPrefix))
        } else if self.skip_prefix_for is None {
            Some(ConfigFault::MissingField(Field::SkipPrefixFor))
        } else if self.port->0 < 1 || self.port->0 > 65535 {
            Some(ConfigFault::PortOutOfRange)
        } else if self.api_version->0 < 0 || self.api_version->0 > 65535 {
            Some(ConfigFault::ApiVersionOutOfRange)
        } else {
            None
        }
    }

    /// The descriptor that complete fields stand for.
    pub open spec fn service(self) -> ServiceSpec
        recommends
            self.fault() is None,
    {
        ServiceSpec {
            host: self.host->0,
            port: self.port->0 as nat,
            prefix: self.prefix->0,
            api_version: self.api_version->0 as nat,
            strip_prefix: self.strip_prefix->0,
            skip_prefix_for: self.skip_prefix_for->0,
        }
    }
}

impl View for ServiceConfig {
    type V = ServiceSpec;

    open spec fn view(&self) -> ServiceSpec {
        ServiceSpec {
            host: self.host@,
            port: self.port as nat,
            prefix: self.prefix@,
            api_version: self.api_version as nat,
            strip_prefix: self.strip_prefix,
            skip_prefix_for: strings_view(self.skip_prefix_for@),
        }
    }
}

impl ServiceSpec {
    /// The first rule that the descriptor breaks, checked in the order
    /// host, port, prefix.
    pub open spec fn fault(self) -> Option<ConfigFault> {
        if self.host.len() == 0 {
            Some(ConfigFault::EmptyHost)
        } else if self.port < 1 || self.port > 65535 {
            Some(ConfigFault::PortOutOfRange)
        } else if self.prefix.len() == 0 {
            Some(ConfigFault::EmptyPrefix)
        } else {
            None
        }
    }

    /// A descriptor that may stand in a table.
    pub open spec fn valid(self) -> bool {
        &&& self.host.len() > 0
        &&& 1 <= self.port <= 65535
        &&& self.prefix.len() > 0
    }

    /// Whether the descriptor claims `path`: its prefix starts the path.
    pub open spec fn claims(self, path: Seq<char>) -> bool {
        self.prefix.is_prefix_of(path)
    }
}

/// A copy of a list of strings.
fn copy_strings(list: &Vec<String>) -> (r: Vec<String>)
    ensures
        strings_view(r@) == strings_view(list@),
{
    let mut out: Vec<String> = Vec::new();
    let mut i: usize = 0;
    while i < list.len()
        invariant
            i <= list.len(),
            out@.len() == i,
            forall|j: int| 0 <= j < i ==> out@[j]@ == list@[j]@,
        decreases list.len() - i,
    {
        out.push(list[i].clone());
        i += 1;
    }
    assert(strings_view(out@) =~= strings_view(list@));
    out
}

impl Clone for ServiceConfig {
    fn clone(&self) -> (r: Self)
        ensures
            r@ == self@,
    {
        ServiceConfig {
            host: self.host.clone(),
            port: self.port,
            prefix: self.prefix.clone(),
            api_version: self.api_version,
            strip_prefix: self.strip_prefix,
            skip_prefix_for: copy_strings(&self.skip_prefix_for),
        }
    }
}

impl ServiceConfig {
    /// Builds a descriptor from the fields of a document, or names the
    /// first rule that they break.
    pub fn from_fields(fields: &ServiceFields) -> (r: Result<ServiceConfig, ConfigFault>)
        ensures
            match r {
                Ok(sc) => fields@.fault() is None && sc@ == fields@.service(),
                Err(f) => fields@.fault() == Some(f),
            },
    {
        let Some(host) = &fields.host else {
            return Err(ConfigFault::MissingField(Field::Host));
        };
        let Some(port) = fields.port else {
            return Err(ConfigFault::MissingField(Field::Port));
        };
        let Some(prefix) = &fields.prefix else {
            return Err(ConfigFault::MissingField(Field::Prefix));
        };
        let Some(api_version) = fields.api_version else {
            return Err(ConfigFault::MissingField(Field::ApiVersion));
        };
        let Some(strip_prefix) = fields.strip_prefix else {
            return Err(ConfigFault::MissingField(Field::StripPrefix));
        };
        let Some(skip_prefix_for) = &fields.skip_prefix_for else {
            return Err(ConfigFault::MissingField(Field::SkipPrefixFor));
        };
        if port < 1 || port > 65535 {
            return Err(ConfigFault::PortOutOfRange);
        }
        if api_version < 0 || api_version > 65535 {
            return Err(ConfigFault::ApiVersionOutOfRange);
        }
        Ok(
            ServiceConfig {
                host: host.clone(),
                port: port as u16,
                prefix: prefix.clone(),
                api_version: api_version as u16,
                strip_prefix,
                skip_prefix_for: copy_strings(skip_prefix_for),
            },
        )
    }

    /// Checks the descriptor against the rules of the data model.
    pub fn check(&self) -> (r: Option<ConfigFault>)
        ensures
            r == self@.fault(),
            r is None <==> self@.valid(),
    {
        if self.host.as_str().is_empty() {
            Some(ConfigFault::EmptyHost)
        } else if self.port == 0 {
            Some(ConfigFault::PortOutOfRange)
        } else if self.prefix.as_str().is_empty() {
            Some(ConfigFault::EmptyPrefix)
        } else {
            None
        }
    }
}

/// The table that a list of named descriptors stands for.
pub open spec fn table_view(entries: Seq<(String, ServiceConfig)>) -> Seq<(Seq<char>, ServiceSpec)> {
    Seq::new(entries.len(), |i: int| (entries[i].0@, entries[i].1@))
}

/// Whether an entry before `i` has the name of entry `i`.
pub open spec fn name_taken(table: Seq<(Seq<char>, ServiceSpec)>, i: int) -> bool {
    exists|j: int| 0 <= j < i && #[trigger] table[j].0 == table[i].0
}

/// Why entry `i` is refused, if it is.
pub open spec fn entry_fault(table: Seq<(Seq<char>, ServiceSpec)>, i: int) -> Option<ConfigFault> {
    match table[i].1.fault() {
        Some(f) => Some(f),
        None => if name_taken(table, i) {
            Some(ConfigFault::DuplicateName)
        } else {
            None
        },
    }
}

/// A table whose descriptors are all valid and whose names are distinct.
pub open spec fn valid_table(table: Seq<(Seq<char>, ServiceSpec)>) -> bool {
    forall|i: int| 0 <= i < table.len() ==> (#[trigger] entry_fault(table, i)) is None
}

/// Entry `i` is the first that is refused.
pub open spec fn first_fault_at(table: Seq<(Seq<char>, ServiceSpec)>, i: int) -> bool {
    &&& 0 <= i < table.len()
    &&& entry_fault(table, i) is Some
    &&& forall|j: int| 0 <= j < i ==> (#[trigger] entry_fault(table, j)) is None
}

/// The text that introduces each fault in an error message.
pub open spec fn fault_label(f: ConfigFault) -> Seq<char> {
    match f {
        ConfigFault::MissingField(Field::Host) => "missing field host in service "@,
        ConfigFault::MissingField(Field::Port) => "missing field port in service "@,
        ConfigFault::MissingField(Field::Prefix) => "missing field prefix in service "@,
        ConfigFault::MissingField(Field::ApiVersion) => "missing field apiVersion in service "@,
        ConfigFault::MissingField(Field::StripPrefix) => "missing field stripPrefix in service "@,
        ConfigFault::MissingField(Field::SkipPrefixFor) => "missing field skipPrefixFor in service "@,
        ConfigFault::PortOutOfRange => "port out of range in service "@,
        ConfigFault::ApiVersionOutOfRange => "apiVersion out of range in service "@,
        ConfigFault::EmptyHost => "empty host in service "@,
        ConfigFault::EmptyPrefix => "empty prefix in service "@,
        ConfigFault::DuplicateName => "duplicate service name "@,
    }
}

/// The table that the records of a document stand for, where none of
/// them has a fault of its own.
pub open spec fn document_view(records: Seq<(String, ServiceFields)>) -> Seq<
    (Seq<char>, ServiceSpec),
> {
    Seq::new(records.len(), |i: int| (records[i].0@, records[i].1@.service()))
}

/// Record `i` is the first whose fields break a rule.
pub open spec fn first_record_fault_at(records: Seq<(String, ServiceFields)>, i: int) -> bool {
    &&& 0 <= i < records.len()
    &&& records[i].1@.fault() is Some
    &&& forall|j: int| 0 <= j < i ==> (#[trigger] records[j]).1@.fault() is None
}

/// No record has a fault of its own.
pub open spec fn complete_records(records: Seq<(String, ServiceFields)>) -> bool {
    forall|j: int| 0 <= j < records.len() ==> (#[trigger] records[j]).1@.fault() is None
}

/// The error for a list of entries that makes no table: a configuration
/// error whose message gives the fault and the name of the first refused
/// entry.
pub open spec fn table_refusal(table: Seq<(Seq<char>, ServiceSpec)>, e: ProxyError) -> bool {
    match e {
        ProxyError::ConfigError(msg) => exists|i: int|
            first_fault_at(table, i) && msg@ == fault_message(
                table[i].0,
                #[trigger] entry_fault(table, i)->0,
            ),
        ProxyError::RouteNotFound(_) => false,
    }
}

/// The error for a document that makes no table. Where a record lacks a
/// field or has a number out of range, the message gives the first such
/// record and its fault; otherwise it is the error of the entries that
/// the records stand for.
pub open spec fn document_refusal(records: Seq<(String, ServiceFields)>, e: ProxyError) -> bool {
    if complete_records(records) {
        table_refusal(document_view(records), e)
    } else {
        match e {
            ProxyError::ConfigError(msg) => exists|i: int|
                #[trigger] first_record_fault_at(records, i) && msg@ == fault_message(
                    records[i].0@,
                    records[i].1@.fault()->0,
                ),
            ProxyError::RouteNotFound(_) => false,
        }
    }
}

/// The cause reported for fault `f` in the entry called `name`.
pub open spec fn fault_message(name: Seq<char>, f: ConfigFault) -> Seq<char> {
    fault_label(f) + name
}

/// The index of the first entry at or after `k` that claims `path`.
pub open spec fn first_match_from(
    table: Seq<(Seq<char>, ServiceSpec)>,
    path: Seq<char>,
    k: int,
) -> Option<int>
    decreases table.len() - k,
{
    if k < 0 || k >= table.len() {
        None
    } else if table[k].1.claims(path) {
        Some(k)
    } else {
        first_match_from(table, path, k + 1)
    }
}

/// The entry that a request path is routed to: the first in table order
/// whose prefix starts the path.
pub open spec fn route(table: Seq<(Seq<char>, ServiceSpec)>, path: Seq<char>) -> Option<
    (Seq<char>, ServiceSpec),
> {
    match first_match_from(table, path, 0) {
        Some(i) => Some(table[i]),
        None => None,
    }
}

/// The index of the first entry at or after `k` that is called `name`.
pub open spec fn first_named_from(
    table: Seq<(Seq<char>, ServiceSpec)>,
    name: Seq<char>,
    k: int,
) -> Option<int>
    decreases table.len() - k,
{
    if k < 0 || k >= table.len() {
        None
    } else if table[k].0 == name {
        Some(k)
    } else {
        first_named_from(table, name, k + 1)
    }
}

/// The descriptor stored under `name`.
pub open spec fn service_named(table: Seq<(Seq<char>, ServiceSpec)>, name: Seq<char>) -> Option<
    ServiceSpec,
> {
    match first_named_from(table, name, 0) {
        Some(i) => Some(table[i].1),
        None => None,
    }
}

/// The routing table: service names with their descriptors, in the order
/// in which they were given. Every table is valid in the sense of
/// [`valid_table`].
#[derive(Debug)]
pub struct RoutingConfig {
    services: Vec<(String, ServiceConfig)>,
}

impl View for RoutingConfig {
    type V = Seq<(Seq<char>, ServiceSpec)>;

    closed spec fn view(&self) -> Seq<(Seq<char>, ServiceSpec)> {
        table_view(self.services@)
    }
}

/// Builds the message of a refused entry.
fn fault_text(name: &str, f: ConfigFault) -> (r: String)
    ensures
        r@ == fault_message(name@, f),
{
    let label = match f {
        ConfigFault::MissingField(Field::Host) => "missing field host in service ",
        ConfigFault::MissingField(Field::Port) => "missing field port in service ",
        ConfigFault::MissingField(Field::Prefix) => "missing field prefix in service ",
        ConfigFault::MissingField(Field::ApiVersion) => "missing field apiVersion in service ",
        ConfigFault::MissingField(Field::StripPrefix) => "missing field stripPrefix in service ",
        ConfigFault::MissingField(Field::SkipPrefixFor) => "missing field skipPrefixFor in service ",
        ConfigFault::PortOutOfRange => "port out of range in service ",
        ConfigFault::ApiVersionOutOfRange => "apiVersion out of range in service ",
        ConfigFault::EmptyHost => "empty host in service ",
        ConfigFault::EmptyPrefix => "empty prefix in service ",
        ConfigFault::DuplicateName => "duplicate service name ",
    };
    String::from_str(label).concat(name)
}

impl RoutingConfig {
    #[verifier::type_invariant]
    spec fn inv(&self) -> bool {
        valid_table(table_view(self.services@))
    }

    /// Builds the table from the records of a configuration document, or
    /// refuses them. The document is accepted exactly when every record
    /// has all its fields, with port and version number in range, every
    /// descriptor is valid and no name occurs twice.
    pub fn load(records: Vec<(String, ServiceFields)>) -> (r: Result<RoutingConfig, ProxyError>)
        ensures
            match r {
                Ok(t) => complete_records(records@) && valid_table(document_view(records@)) && t@
                    == document_view(records@),
                Err(e) => document_refusal(records@, e) && e is ConfigError,
            },
            r is Ok <==> complete_records(records@) && valid_table(document_view(records@)),
            (exists|i: int| 0 <= i < records@.len() && (#[trigger] records@[i]).1@.fault() is Some)
                ==> r is Err,
    {
        let mut entries: Vec<(String, ServiceConfig)> = Vec::new();
        let mut i: usize = 0;
        while i < records.len()
            invariant
                i <= records.len(),
                entries@.len() == i,
                forall|j: int| 0 <= j < i ==> (#[trigger] records@[j]).1@.fault() is None,
                forall|j: int|
                    0 <= j < i ==> (#[trigger] entries@[j]).0@ == records@[j].0@ && entries@[j].1@
                        == records@[j].1@.service(),
            decreases records.len() - i,
        {
            match ServiceConfig::from_fields(&records[i].1) {
                Ok(sc) => {
                    entries.push((records[i].0.clone(), sc));
                },
                Err(f) => {
                    let msg = fault_text(records[i].0.as_str(), f);
                    assert(first_record_fault_at(records@, i as int));
                    assert(!complete_records(records@));
                    return Err(ProxyError::ConfigError(msg));
                },
            }
            i += 1;
        }
        assert(complete_records(records@));
        assert(table_view(entries@) =~= document_view(records@));
        Self::from_services(entries)
    }

    /// Builds the table from descriptors, or refuses them. The entries
    /// are accepted exactly when every descriptor is valid and no name
    /// occurs twice; otherwise the error names the first refused entry.
    pub fn from_services(entries: Vec<(String, ServiceConfig)>) -> (r: Result<
        RoutingConfig,
        ProxyError,
    >)
        ensures
            match r {
                Ok(t) => valid_table(table_view(entries@)) && t@ == table_view(entries@),
                Err(e) => table_refusal(table_view(entries@), e) && e is ConfigError,
            },
            r is Ok <==> valid_table(table_view(entries@)),
    {
        let ghost table = table_view(entries@);
        let mut i: usize = 0;
        while i < entries.len()
            invariant
                i <= entries.len(),
                table == table_view(entries@),
                forall|j: int| 0 <= j < i ==> (#[trigger] entry_fault(table, j)) is None,
            decreases entries.len() - i,
        {
            match entries[i].1.check() {
                Some(f) => {
                    let msg = fault_text(entries[i].0.as_str(), f);
                    assert(entry_fault(table, i as int) == Some(f));
                    assert(first_fault_at(table, i as int));
                    return Err(ProxyError::ConfigError(msg));
                },
                None => {},
            }
            let mut j: usize = 0;
            while j < i
                invariant
                    j <= i < entries.len(),
                    table == table_view(entries@),
                    table[i as int].1.fault() is None,
                    forall|k: int| 0 <= k < i ==> (#[trigger] entry_fault(table, k)) is None,
                    forall|k: int| 0 <= k < j ==> (#[trigger] table[k].0) != table[i as int].0,
                decreases i - j,
            {
                if entries[j].0 == entries[i].0 {
                    let msg = fault_text(entries[i].0.as_str(), ConfigFault::DuplicateName);
                    assert(table[j as int].0 == table[i as int].0);
                    assert(name_taken(table, i as int));
                    assert(entry_fault(table, i as int) == Some(ConfigFault::DuplicateName));
                    assert(first_fault_at(table, i as int));
                    return Err(ProxyError::ConfigError(msg));
                }
                j += 1;
            }
            assert(!name_taken(table, i as int));
            assert(entry_fault(table, i as int) is None);
            i += 1;
        }
        Ok(RoutingConfig { services: entries })
    }

    /// The number of services in the table.
    pub fn len(&self) -> (n: usize)
        ensures
            n == self@.len(),
    {
        self.services.len()
    }

    /// The name and descriptor at position `i` of the table.
    pub fn entry(&self, i: usize) -> (r: (&String, &ServiceConfig))
        requires
            i < self@.len(),
        ensures
            (r.0@, r.1@) == self@[i as int],
            r.1@.valid(),
    {
        proof {
            use_type_invariant(self);
            assert(entry_fault(self@, i as int) is None);
        }
        (&self.services[i].0, &self.services[i].1)
    }

    /// Finds the service for a request path: the first entry, in table
    /// order, whose prefix starts the path. The name that comes with it
    /// is the one under which the table holds the descriptor.
    pub fn find_service(&self, path: &str) -> (r: Option<(&String, &ServiceConfig)>)
        ensures
            match r {
                Some((name, config)) => {
                    &&& route(self@, path@) == Some((name@, config@))
                    &&& config@.valid()
                    &&& config@.claims(path@)
                    &&& service_named(self@, name@) == Some(config@)
                },
                None => route(self@, path@) is None,
            },
    {
        let mut i: usize = 0;
        while i < self.services.len()
            invariant
                i <= self.services.len(),
                first_match_from(self@, path@, 0) == first_match_from(self@, path@, i as int),
            decreases self.services.len() - i,
        {
            if starts_with(path, self.services[i].1.prefix.as_str()) {
                proof {
                    use_type_invariant(self);
                    lemma_valid_table(self@);
                    assert(self@[i as int] == (self.services@[i as int].0@, self.services@[i as int].1@));
                }
                return Some((&self.services[i].0, &self.services[i].1));
            }
            i += 1;
        }
        None
    }

    /// The descriptor stored under `name`, if the table has one.
    pub fn get(&self, name: &String) -> (r: Option<&ServiceConfig>)
        ensures
            match r {
                Some(config) => service_named(self@, name@) == Some(config@) && config@.valid(),
                None => service_named(self@, name@) is None,
            },
    {
        let mut i: usize = 0;
        while i < self.services.len()
            invariant
                i <= self.services.len(),
                first_named_from(self@, name@, 0) == first_named_from(self@, name@, i as int),
            decreases self.services.len() - i,
        {
            if self.services[i].0 == *name {
                proof {
                    use_type_invariant(self);
                    assert(entry_fault(self@, i as int) is None);
                }
                return Some(&self.services[i].1);
            }
            i += 1;
        }
        None
    }
}

/// Routing is a function of the table and the path: equal tables and
/// equal paths are routed alike.
pub proof fn lemma_route_deterministic(
    table_a: Seq<(Seq<char>, ServiceSpec)>,
    table_b: Seq<(Seq<char>, ServiceSpec)>,
    path_a: Seq<char>,
    path_b: Seq<char>,
)
    requires
        table_a == table_b,
        path_a == path_b,
    ensures
        route(table_a, path_a) == route(table_b, path_b),
{
}

/// The search from position `k` finds the first claiming entry at or
/// after `k`, and nothing exactly when no entry from `k` on claims the
/// path.
pub proof fn lemma_first_match_from(table: Seq<(Seq<char>, ServiceSpec)>, path: Seq<char>, k: int)
    requires
        0 <= k <= table.len(),
    ensures
        match first_match_from(table, path, k) {
            Some(i) => k <= i < table.len() && table[i].1.claims(path) && forall|j: int|
                k <= j < i ==> !(#[trigger] table[j]).1.claims(path),
            None => forall|j: int| k <= j < table.len() ==> !(#[trigger] table[j]).1.claims(path),
        },
    decreases table.len() - k,
{
    if k < table.len() && !table[k].1.claims(path) {
        lemma_first_match_from(table, path, k + 1);
    }
}

/// A path is routed nowhere exactly when no descriptor's prefix starts
/// it; otherwise it is routed to the first entry whose prefix does.
pub proof fn lemma_route(table: Seq<(Seq<char>, ServiceSpec)>, path: Seq<char>)
    ensures
        route(table, path) is None <==> forall|j: int|
            0 <= j < table.len() ==> !(#[trigger] table[j]).1.claims(path),
        route(table, path) is Some ==> exists|i: int|
            0 <= i < table.len() && route(table, path) == Some(#[trigger] table[i])
                && table[i].1.claims(path) && forall|j: int|
                0 <= j < i ==> !(#[trigger] table[j]).1.claims(path),
{
    lemma_first_match_from(table, path, 0);
}

/// In a valid table every descriptor is valid, no two entries share a
/// name, and a name that occurs in it leads to its own descriptor.
pub proof fn lemma_valid_table(table: Seq<(Seq<char>, ServiceSpec)>)
    requires
        valid_table(table),
    ensures
        forall|i: int| 0 <= i < table.len() ==> (#[trigger] table[i]).1.valid(),
        forall|i: int, j: int|
            0 <= i < j < table.len() ==> (#[trigger] table[i]).0 != (#[trigger] table[j]).0,
        forall|i: int|
            0 <= i < table.len() ==> service_named(table, (#[trigger] table[i]).0) == Some(
                table[i].1,
            ),
{
    assert forall|i: int| 0 <= i < table.len() implies (#[trigger] table[i]).1.valid() by {
        assert(entry_fault(table, i) is None);
    }
    assert forall|i: int, j: int| 0 <= i < j < table.len() implies (#[trigger] table[i]).0 != (
    #[trigger] table[j]).0 by {
        assert(entry_fault(table, j) is None);
        assert(!name_taken(table, j));
    }
    assert forall|i: int| 0 <= i < table.len() implies service_named(
        table,
        (#[trigger] table[i]).0,
    ) == Some(table[i].1) by {
        lemma_first_named_from(table, table[i].0, 0);
    }
}

/// The search by name from position `k` finds the first entry at or after
/// `k` that has the name, and nothing exactly when none from `k` on has.
pub proof fn lemma_first_named_from(table: Seq<(Seq<char>, ServiceSpec)>, name: Seq<char>, k: int)
    requires
        0 <= k <= table.len(),
    ensures
        match first_named_from(table, name, k) {
            Some(i) => k <= i < table.len() && table[i].0 == name && forall|j: int|
                k <= j < i ==> (#[trigger] table[j]).0 != name,
            None => forall|j: int| k <= j < table.len() ==> (#[trigger] table[j]).0 != name,
        },
    decreases table.len() - k,
{
    if k < table.len() && table[k].0 != name {
        lemma_first_named_from(table, name, k + 1);
    }
}

} // verus!
