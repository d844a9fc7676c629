//! The interface model: mappings, validation and path resolution.
use vstd::prelude::*;
use crate::path::{
    check_path, endpoint_matches, is_param, levels_of, path_levels, valid_path,
    MappingPath,
};
use crate::text::{chars_view, same_chars};
use crate::types::MappingType;

verus! {

/// Most mappings an interface may hold.
pub const MAX_MAPPINGS: usize = 1024;

/// Who publishes on an interface.
#[derive(Debug, Clone, Copy, PartialEq, Eq, Structural)]
pub enum Ownership {
    Device,
    Server,
}

/// Whether the mappings of an interface are published one by one or together.
#[derive(Debug, Clone, Copy, PartialEq, Eq, Structural)]
pub enum Aggregation {
    Individual,
    Object,
}

/// Datastream or property interface.
#[derive(Debug, Clone, Copy, PartialEq, Eq, Structural)]
pub enum InterfaceType {
    Datastream,
    Properties,
}

/// Delivery guarantee of a mapping.
#[derive(Debug, Clone, Copy, PartialEq, Eq, Structural)]
pub enum Reliability {
    Unreliable,
    Guaranteed,
    Unique,
}

/// What the device does with data it cannot send yet.
#[derive(Debug, Clone, Copy, PartialEq, Eq, Structural)]
pub enum Retention {
    Discard,
    Volatile,
    Stored,
}

/// How long the backend keeps the data.
#[derive(Debug, Clone, Copy, PartialEq, Eq, Structural)]
pub enum DatabaseRetentionPolicy {
    NoTtl,
    UseTtl,
}

/// Reasons for which an interface is refused.
#[derive(Debug, Clone, PartialEq, Eq)]
pub enum InterfaceError {
    /// The interface document could not be read.
    Parse(String),
    /// Major and minor version are both zero.
    MajorMinor,
    /// The interface has no mapping.
    EmptyMappings,
    /// The interface has more mappings than allowed.
    TooManyMappings,
    /// A property interface declared with object aggregation.
    PropertyObject,
    /// An endpoint is not a valid path template.
    InvalidEndpoint { endpoint: String },
    /// Two endpoints can never be told apart.
    DuplicateMapping { endpoint: String, duplicate: String },
    /// A mapping asks for a database TTL without giving one.
    MissingTtl { endpoint: String },
    /// An object endpoint with a single level.
    ObjectEndpointTooShort { endpoint: String },
    /// Object endpoints that differ before their last level.
    InconsistentEndpoints { endpoint: String },
    /// Object mappings with different delivery settings.
    InconsistentMapping { endpoint: String },
    /// A new version of an interface that is older than the installed one.
    VersionChange { name: String },
    /// No interface of this name is installed.
    InterfaceNotFound { name: String },
}

/// The kind of an [`InterfaceError`], without its details.
#[derive(Debug, Clone, Copy, PartialEq, Eq, Structural)]
pub enum InterfaceErrorKind {
    Parse,
    MajorMinor,
    EmptyMappings,
    TooManyMappings,
    PropertyObject,
    InvalidEndpoint,
    DuplicateMapping,
    MissingTtl,
    ObjectEndpointTooShort,
    InconsistentEndpoints,
    InconsistentMapping,
    VersionChange,
    InterfaceNotFound,
}

impl InterfaceError {
    pub open spec fn kind(&self) -> InterfaceErrorKind {
        match self {
            InterfaceError::Parse(_) => InterfaceErrorKind::Parse,
            InterfaceError::MajorMinor => InterfaceErrorKind::MajorMinor,
            InterfaceError::EmptyMappings => InterfaceErrorKind::EmptyMappings,
            InterfaceError::TooManyMappings => InterfaceErrorKind::TooManyMappings,
            InterfaceError::PropertyObject => InterfaceErrorKind::PropertyObject,
            InterfaceError::InvalidEndpoint { .. } => InterfaceErrorKind::InvalidEndpoint,
            InterfaceError::DuplicateMapping { .. } => InterfaceErrorKind::DuplicateMapping,
            InterfaceError::MissingTtl { .. } => InterfaceErrorKind::MissingTtl,
            InterfaceError::ObjectEndpointTooShort { .. } => InterfaceErrorKind::ObjectEndpointTooShort,
            InterfaceError::InconsistentEndpoints { .. } => InterfaceErrorKind::InconsistentEndpoints,
            InterfaceError::InconsistentMapping { .. } => InterfaceErrorKind::InconsistentMapping,
            InterfaceError::VersionChange { .. } => InterfaceErrorKind::VersionChange,
            InterfaceError::InterfaceNotFound { .. } => InterfaceErrorKind::InterfaceNotFound,
        }
    }
}

/// One endpoint of an interface.
#[derive(Debug)]
pub struct Mapping {
    pub endpoint: String,
    pub mapping_type: MappingType,
    pub reliability: Reliability,
    pub retention: Retention,
    /// Seconds after which unsent data expires; zero for never.
    pub expiry: i64,
    pub database_retention_policy: DatabaseRetentionPolicy,
    pub database_retention_ttl: Option<i64>,
    pub allow_unset: bool,
    pub explicit_timestamp: bool,
}

/// The mathematical content of a [`Mapping`].
pub struct MappingView {
    pub endpoint: Seq<char>,
    pub mapping_type: MappingType,
    pub reliability: Reliability,
    pub retention: Retention,
    pub expiry: i64,
    pub database_retention_policy: DatabaseRetentionPolicy,
    pub database_retention_ttl: Option<i64>,
    pub allow_unset: bool,
    pub explicit_timestamp: bool,
}

impl View for Mapping {
    type V = MappingView;

    open spec fn view(&self) -> MappingView {
        MappingView {
            endpoint: self.endpoint@,
            mapping_type: self.mapping_type,
            reliability: self.reliability,
            retention: self.retention,
            expiry: self.expiry,
            database_retention_policy: self.database_retention_policy,
            database_retention_ttl: self.database_retention_ttl,
            allow_unset: self.allow_unset,
            explicit_timestamp: self.explicit_timestamp,
        }
    }
}

impl Mapping {
    /// A mapping with the defaults of the interface schema: unreliable, discarded when it cannot
    /// be sent, no expiry, no database TTL, no unset, no explicit timestamp.
    pub fn new(endpoint: &str, mapping_type: MappingType) -> (r: Mapping)
        ensures
            r@ == (MappingView {
                endpoint: endpoint@,
                mapping_type,
                reliability: Reliability::Unreliable,
                retention: Retention::Discard,
                expiry: 0,
                database_retention_policy: DatabaseRetentionPolicy::NoTtl,
                database_retention_ttl: None,
                allow_unset: false,
                explicit_timestamp: false,
            }),
    {
        Mapping {
            endpoint: String::from_str(endpoint),
            mapping_type,
            reliability: Reliability::Unreliable,
            retention: Retention::Discard,
            expiry: 0,
            database_retention_policy: DatabaseRetentionPolicy::NoTtl,
            database_retention_ttl: None,
            allow_unset: false,
            explicit_timestamp: false,
        }
    }
}

pub open spec fn mappings_view(v: Seq<Mapping>) -> Seq<MappingView> {
    v.map_values(|m: Mapping| m@)
}

/// Two templates that would match the same paths: same number of levels, and at each level
/// either two parameters or the same text.
pub open spec fn endpoints_clash(a: Seq<char>, b: Seq<char>) -> bool {
    let x = levels_of(a);
    let y = levels_of(b);
    &&& x.len() == y.len()
    &&& forall|i: int| 0 <= i < x.len() ==> #[trigger] levels_alike(x[i], y[i])
}

pub open spec fn levels_alike(a: Seq<char>, b: Seq<char>) -> bool {
    (is_param(a) && is_param(b)) || a == b
}

pub open spec fn missing_ttl(m: MappingView) -> bool {
    m.database_retention_policy == DatabaseRetentionPolicy::UseTtl && m.database_retention_ttl is None
}

/// Two object endpoints share all levels but the last.
pub open spec fn same_prefix(a: Seq<char>, b: Seq<char>) -> bool {
    let x = levels_of(a);
    let y = levels_of(b);
    &&& x.len() == y.len()
    &&& forall|i: int| 0 <= i < x.len() - 1 ==> #[trigger] x[i] == y[i]
}

/// Two object mappings are delivered alike.
pub open spec fn same_delivery(a: MappingView, b: MappingView) -> bool {
    &&& a.reliability == b.reliability
    &&& a.retention == b.retention
    &&& a.expiry == b.expiry
    &&& a.database_retention_policy == b.database_retention_policy
    &&& a.database_retention_ttl == b.database_retention_ttl
    &&& a.explicit_timestamp == b.explicit_timestamp
}

/// The first rule that an interface breaks, in the order in which they are checked.
pub open spec fn interface_fault(
    major: i32,
    minor: i32,
    kind: InterfaceType,
    aggregation: Aggregation,
    ms: Seq<MappingView>,
) -> Option<InterfaceErrorKind> {
    if major < 0 || minor < 0 || (major == 0 && minor == 0) {
        Some(InterfaceErrorKind::MajorMinor)
    } else if ms.len() == 0 {
        Some(InterfaceErrorKind::EmptyMappings)
    } else if ms.len() > MAX_MAPPINGS {
        Some(InterfaceErrorKind::TooManyMappings)
    } else if kind == InterfaceType::Properties && aggregation == Aggregation::Object {
        Some(InterfaceErrorKind::PropertyObject)
    } else if exists|i: int| 0 <= i < ms.len() && !valid_path(#[trigger] ms[i].endpoint) {
        Some(InterfaceErrorKind::InvalidEndpoint)
    } else if exists|i: int, j: int|
        0 <= i < j < ms.len() && endpoints_clash(#[trigger] ms[i].endpoint, #[trigger] ms[j].endpoint) {
        Some(InterfaceErrorKind::DuplicateMapping)
    } else if exists|i: int| 0 <= i < ms.len() && missing_ttl(#[trigger] ms[i]) {
        Some(InterfaceErrorKind::MissingTtl)
    } else if aggregation == Aggregation::Object && exists|i: int|
        0 <= i < ms.len() && levels_of(#[trigger] ms[i].endpoint).len() < 2 {
        Some(InterfaceErrorKind::ObjectEndpointTooShort)
    } else if aggregation == Aggregation::Object && exists|i: int|
        0 <= i < ms.len() && !same_prefix(ms[0].endpoint, #[trigger] ms[i].endpoint) {
        Some(InterfaceErrorKind::InconsistentEndpoints)
    } else if aggregation == Aggregation::Object && exists|i: int|
        0 <= i < ms.len() && !same_delivery(ms[0], #[trigger] ms[i]) {
        Some(InterfaceErrorKind::InconsistentMapping)
    } else {
        None
    }
}

/// A validated interface.
#[derive(Debug)]
pub struct Interface {
    name: String,
    version_major: i32,
    version_minor: i32,
    interface_type: InterfaceType,
    ownership: Ownership,
    aggregation: Aggregation,
    mappings: Vec<Mapping>,
}

/// The mathematical content of an [`Interface`].
pub struct InterfaceView {
    pub name: Seq<char>,
    pub version_major: i32,
    pub version_minor: i32,
    pub interface_type: InterfaceType,
    pub ownership: Ownership,
    pub aggregation: Aggregation,
    pub mappings: Seq<MappingView>,
}

impl View for Interface {
    type V = InterfaceView;

    closed spec fn view(&self) -> InterfaceView {
        InterfaceView {
            name: self.name@,
            version_major: self.version_major,
            version_minor: self.version_minor,
            interface_type: self.interface_type,
            ownership: self.ownership,
            aggregation: self.aggregation,
            mappings: mappings_view(self.mappings@),
        }
    }
}

/// The interface breaks none of the rules.
pub open spec fn valid_interface(i: InterfaceView) -> bool {
    interface_fault(i.version_major, i.version_minor, i.interface_type, i.aggregation, i.mappings)
        is None
}

/// Index of the first mapping whose template matches `path`, searching from `from`.
pub open spec fn first_match_from(ms: Seq<MappingView>, path: Seq<char>, from: int) -> Option<int>
    decreases ms.len() - from,
{
    if from < 0 || from >= ms.len() {
        None
    } else if endpoint_matches(ms[from].endpoint, path) {
        Some(from)
    } else {
        first_match_from(ms, path, from + 1)
    }
}

/// Index of the first mapping whose template matches `path`.
pub open spec fn first_match(ms: Seq<MappingView>, path: Seq<char>) -> Option<int> {
    first_match_from(ms, path, 0)
}

/// The mapping that `path` resolves to on an interface.
pub open spec fn resolve(i: InterfaceView, path: Seq<char>) -> Option<MappingView> {
    match first_match(i.mappings, path) {
        Some(k) => Some(i.mappings[k]),
        None => None,
    }
}

pub proof fn lemma_first_match_from(ms: Seq<MappingView>, path: Seq<char>, from: int)
    requires
        0 <= from,
    ensures
        first_match_from(ms, path, from) matches Some(k) ==> from <= k < ms.len()
            && endpoint_matches(ms[k].endpoint, path),
        first_match_from(ms, path, from) is None ==> forall|k: int|
            from <= k < ms.len() ==> !endpoint_matches(#[trigger] ms[k].endpoint, path),
    decreases ms.len() - from,
{
    if from < ms.len() && !endpoint_matches(ms[from].endpoint, path) {
        lemma_first_match_from(ms, path, from + 1);
    }
}

impl Interface {
    /// Every interface obeys the rules of the schema.
    #[verifier::type_invariant]
    closed spec fn inv(&self) -> bool {
        valid_interface(self@)
    }

    /// Brings the interface's validity into a proof.
    pub fn ensure_valid(&self)
        ensures
            valid_interface(self@),
    {
        proof {
            use_type_invariant(self);
        }
    }

    /// Builds an interface, checking every rule of the schema.
    #[verifier::loop_isolation(false)]
    pub fn new(
        name: &str,
        version_major: i32,
        version_minor: i32,
        interface_type: InterfaceType,
        ownership: Ownership,
        aggregation: Aggregation,
        mappings: Vec<Mapping>,
    ) -> (r: Result<Interface, InterfaceError>)
        ensures
            r is Ok <==> interface_fault(
                version_major,
                version_minor,
                interface_type,
                aggregation,
                mappings_view(mappings@),
            ) is None,
            r matches Ok(i) ==> i@ == (InterfaceView {
                name: name@,
                version_major,
                version_minor,
                interface_type,
                ownership,
                aggregation,
                mappings: mappings_view(mappings@),
            }),
            r matches Err(e) ==> Some(e.kind()) == interface_fault(
                version_major,
                version_minor,
                interface_type,
                aggregation,
                mappings_view(mappings@),
            ),
    {
        let ghost ms = mappings_view(mappings@);
        if version_major < 0 || version_minor < 0 || (version_major == 0 && version_minor == 0) {
            return Err(InterfaceError::MajorMinor);
        }
        if mappings.len() == 0 {
            return Err(InterfaceError::EmptyMappings);
        }
        if mappings.len() > MAX_MAPPINGS {
            return Err(InterfaceError::TooManyMappings);
        }
        if matches!(interface_type, InterfaceType::Properties) && matches!(aggregation, Aggregation::Object) {
            return Err(InterfaceError::PropertyObject);
        }
        let n = mappings.len();
        // endpoints
        let mut i: usize = 0;
        while i < n
            invariant
                n == mappings.len(),
                ms == mappings_view(mappings@),
                i <= n,
                forall|k: int| 0 <= k < i ==> valid_path(#[trigger] ms[k].endpoint),
            decreases n - i,
        {
            if !check_path(mappings[i].endpoint.as_str()) {
                assert(!valid_path(ms[i as int].endpoint));
                return Err(InterfaceError::InvalidEndpoint { endpoint: mappings[i].endpoint.clone() });
            }
            i = i + 1;
        }
        // duplicates
        let mut levels: Vec<Vec<Vec<char>>> = Vec::new();
        let mut i: usize = 0;
        while i < n
            invariant
                n == mappings.len(),
                ms == mappings_view(mappings@),
                i <= n,
                levels@.len() == i,
                forall|k: int| 0 <= k < i ==> chars_view(#[trigger] levels@[k]@) == levels_of(ms[k].endpoint),
            decreases n - i,
        {
            levels.push(path_levels(mappings[i].endpoint.as_str()));
            i = i + 1;
        }
        let mut i: usize = 0;
        while i < n
            invariant
                n == mappings.len(),
                ms == mappings_view(mappings@),
                i <= n,
                levels@.len() == n,
                forall|k: int| 0 <= k < n ==> chars_view(#[trigger] levels@[k]@) == levels_of(ms[k].endpoint),
                forall|a: int, b: int| 0 <= a < i && a < b < n ==> !endpoints_clash(#[trigger] ms[a].endpoint, #[trigger] ms[b].endpoint),
            decreases n - i,
        {
            let mut j: usize = i + 1;
            while j < n
                invariant
                    n == mappings.len(),
                    ms == mappings_view(mappings@),
                    i < n,
                    i < j <= n,
                    levels@.len() == n,
                    forall|k: int| 0 <= k < n ==> chars_view(#[trigger] levels@[k]@) == levels_of(ms[k].endpoint),
                    forall|b: int| i < b < j ==> !endpoints_clash(ms[i as int].endpoint, #[trigger] ms[b].endpoint),
                decreases n - j,
            {
                if levels_clash(&levels[i], &levels[j]) {
                    proof {
                        assert(chars_view(levels@[i as int]@) == levels_of(ms[i as int].endpoint));
                        assert(chars_view(levels@[j as int]@) == levels_of(ms[j as int].endpoint));
                    }
                    return Err(InterfaceError::DuplicateMapping {
                        endpoint: mappings[i].endpoint.clone(),
                        duplicate: mappings[j].endpoint.clone(),
                    });
                }
                proof {
                    assert(chars_view(levels@[i as int]@) == levels_of(ms[i as int].endpoint));
                    assert(chars_view(levels@[j as int]@) == levels_of(ms[j as int].endpoint));
                }
                j = j + 1;
            }
            i = i + 1;
        }
        // database ttl
        let mut i: usize = 0;
        while i < n
            invariant
                n == mappings.len(),
                ms == mappings_view(mappings@),
                i <= n,
                forall|k: int| 0 <= k < i ==> !missing_ttl(#[trigger] ms[k]),
            decreases n - i,
        {
            if matches!(mappings[i].database_retention_policy, DatabaseRetentionPolicy::UseTtl)
                && mappings[i].database_retention_ttl.is_none() {
                assert(missing_ttl(ms[i as int]));
                return Err(InterfaceError::MissingTtl { endpoint: mappings[i].endpoint.clone() });
            }
            i = i + 1;
        }
        if matches!(aggregation, Aggregation::Object) {
            let mut i: usize = 0;
            while i < n
                invariant
                    n == mappings.len(),
                    ms == mappings_view(mappings@),
                    i <= n,
                    levels@.len() == n,
                    forall|k: int| 0 <= k < n ==> chars_view(#[trigger] levels@[k]@) == levels_of(ms[k].endpoint),
                    forall|k: int| 0 <= k < i ==> levels_of(#[trigger] ms[k].endpoint).len() >= 2,
                decreases n - i,
            {
                if levels[i].len() < 2 {
                    assert(chars_view(levels@[i as int]@) == levels_of(ms[i as int].endpoint));
                    return Err(InterfaceError::ObjectEndpointTooShort { endpoint: mappings[i].endpoint.clone() });
                }
                assert(chars_view(levels@[i as int]@) == levels_of(ms[i as int].endpoint));
                i = i + 1;
            }
            let mut i: usize = 0;
            while i < n
                invariant
                    n == mappings.len(),
                    n > 0,
                    ms == mappings_view(mappings@),
                    i <= n,
                    levels@.len() == n,
                    forall|k: int| 0 <= k < n ==> chars_view(#[trigger] levels@[k]@) == levels_of(ms[k].endpoint),
                    forall|k: int| 0 <= k < i ==> same_prefix(ms[0].endpoint, #[trigger] ms[k].endpoint),
                decreases n - i,
            {
                if !prefix_equal(&levels[0], &levels[i]) {
                    assert(chars_view(levels@[0]@) == levels_of(ms[0].endpoint));
                    assert(chars_view(levels@[i as int]@) == levels_of(ms[i as int].endpoint));
                    return Err(InterfaceError::InconsistentEndpoints { endpoint: mappings[i].endpoint.clone() });
                }
                assert(chars_view(levels@[0]@) == levels_of(ms[0].endpoint));
                assert(chars_view(levels@[i as int]@) == levels_of(ms[i as int].endpoint));
                i = i + 1;
            }
            let mut i: usize = 0;
            while i < n
                invariant
                    n == mappings.len(),
                    n > 0,
                    ms == mappings_view(mappings@),
                    i <= n,
                    forall|k: int| 0 <= k < i ==> same_delivery(ms[0], #[trigger] ms[k]),
                decreases n - i,
            {
                let a = &mappings[0];
                let b = &mappings[i];
                if !(a.reliability == b.reliability && a.retention == b.retention && a.expiry == b.expiry
                    && a.database_retention_policy == b.database_retention_policy
                    && a.database_retention_ttl == b.database_retention_ttl
                    && a.explicit_timestamp == b.explicit_timestamp) {
                    assert(!same_delivery(ms[0], ms[i as int]));
                    return Err(InterfaceError::InconsistentMapping { endpoint: mappings[i].endpoint.clone() });
                }
                i = i + 1;
            }
        }
        Ok(Interface {
            name: String::from_str(name),
            version_major,
            version_minor,
            interface_type,
            ownership,
            aggregation,
            mappings,
        })
    }

    pub fn interface_name(&self) -> (r: &str)
        ensures
            r@ == self@.name,
    {
        self.name.as_str()
    }

    pub fn version_major(&self) -> (r: i32)
        ensures
            r == self@.version_major,
    {
        self.version_major
    }

    pub fn version_minor(&self) -> (r: i32)
        ensures
            r == self@.version_minor,
    {
        self.version_minor
    }

    pub fn ownership(&self) -> (r: Ownership)
        ensures
            r == self@.ownership,
    {
        self.ownership
    }

    pub fn aggregation(&self) -> (r: Aggregation)
        ensures
            r == self@.aggregation,
    {
        self.aggregation
    }

    pub fn interface_type(&self) -> (r: InterfaceType)
        ensures
            r == self@.interface_type,
    {
        self.interface_type
    }

    pub fn is_property(&self) -> (r: bool)
        ensures
            r == (self@.interface_type == InterfaceType::Properties),
    {
        matches!(self.interface_type, InterfaceType::Properties)
    }

    pub fn mappings_len(&self) -> (r: usize)
        ensures
            r == self@.mappings.len(),
    {
        self.mappings.len()
    }

    /// The mapping at index `i`.
    pub fn mapping(&self, i: usize) -> (r: &Mapping)
        requires
            i < self@.mappings.len(),
        ensures
            r@ == self@.mappings[i as int],
    {
        &self.mappings[i]
    }

    /// Index of the mapping that `path` resolves to, if any.
    pub fn mapping_index(&self, path: &MappingPath) -> (r: Option<usize>)
        requires
            path.wf(),
        ensures
            r matches Some(k) ==> k < self@.mappings.len() && Some(k as int) == first_match(self@.mappings, path@),
            r is None ==> first_match(self@.mappings, path@) is None,
    {
        let mut i: usize = 0;
        while i < self.mappings.len()
            invariant
                path.wf(),
                i <= self.mappings@.len(),
                first_match(self@.mappings, path@) == first_match_from(self@.mappings, path@, i as int),
            decreases self.mappings@.len() - i,
        {
            if path.matches_endpoint(self.mappings[i].endpoint.as_str()) {
                return Some(i);
            }
            i = i + 1;
        }
        None
    }

    /// The mapping that `path` resolves to, if any.
    pub fn as_mapping_ref(&self, path: &MappingPath) -> (r: Option<&Mapping>)
        requires
            path.wf(),
        ensures
            r matches Some(m) ==> resolve(self@, path@) == Some(m@),
            r is None ==> resolve(self@, path@) is None,
    {
        match self.mapping_index(path) {
            Some(k) => Some(&self.mappings[k]),
            None => None,
        }
    }

    /// Whether the interface has object aggregation.
    pub fn as_object_ref(&self) -> (r: Option<&Interface>)
        ensures
            r matches Some(i) ==> i@ == self@ && self@.aggregation == Aggregation::Object,
            r is None ==> self@.aggregation == Aggregation::Individual,
    {
        match self.aggregation {
            Aggregation::Object => Some(self),
            Aggregation::Individual => None,
        }
    }
}

/// Whether two level lists clash (see [`endpoints_clash`]).
fn levels_clash(a: &Vec<Vec<char>>, b: &Vec<Vec<char>>) -> (r: bool)
    ensures
        r == (chars_view(a@).len() == chars_view(b@).len() && forall|i: int|
            0 <= i < chars_view(a@).len() ==> #[trigger] levels_alike(chars_view(a@)[i], chars_view(b@)[i])),
{
    if a.len() != b.len() {
        return false;
    }
    let mut i: usize = 0;
    while i < a.len()
        invariant
            i <= a.len(),
            a.len() == b.len(),
            forall|j: int| 0 <= j < i ==> #[trigger] levels_alike(a@[j]@, b@[j]@),
        decreases a.len() - i,
    {
        let pa = crate::path::is_param_level(&a[i]);
        let pb = crate::path::is_param_level(&b[i]);
        if !(pa && pb) && !same_chars(&a[i], &b[i]) {
            assert(!levels_alike(chars_view(a@)[i as int], chars_view(b@)[i as int]));
            return false;
        }
        i = i + 1;
    }
    proof {
        assert forall|j: int| 0 <= j < chars_view(a@).len() implies #[trigger] levels_alike(
            chars_view(a@)[j],
            chars_view(b@)[j],
        ) by {
            assert(levels_alike(a@[j]@, b@[j]@));
        }
    }
    true
}

/// Whether two level lists have the same length and agree on all levels but the last.
fn prefix_equal(a: &Vec<Vec<char>>, b: &Vec<Vec<char>>) -> (r: bool)
    ensures
        r == (chars_view(a@).len() == chars_view(b@).len() && forall|i: int|
            0 <= i < chars_view(a@).len() - 1 ==> #[trigger] chars_view(a@)[i] == chars_view(b@)[i]),
{
    if a.len() != b.len() {
        return false;
    }
    if a.len() == 0 {
        return true;
    }
    let mut i: usize = 0;
    while i < a.len() - 1
        invariant
            a.len() > 0,
            i <= a.len() - 1,
            a.len() == b.len(),
            forall|j: int| 0 <= j < i ==> #[trigger] a@[j]@ == b@[j]@,
        decreases a.len() - 1 - i,
    {
        if !same_chars(&a[i], &b[i]) {
            assert(chars_view(a@)[i as int] != chars_view(b@)[i as int]);
            return false;
        }
        i = i + 1;
    }
    proof {
        assert forall|j: int| 0 <= j < chars_view(a@).len() - 1 implies #[trigger] chars_view(a@)[j]
            == chars_view(b@)[j] by {
            assert(a@[j]@ == b@[j]@);
        }
    }
    true
}

} // verus!
