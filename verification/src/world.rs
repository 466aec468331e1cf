//! Worlds: the connection profile of a MUD (name, host, port and options),
//! and its validation.
use vstd::prelude::*;
use crate::error::{error_text, MushError};
use crate::ids::new_id;
use crate::text::{decimal_string, contains_seq, has_prefix, to_owned_string, trim, trim_chars, contains_chars};

verus! {

/// Default connection timeout, in seconds.
pub const DEFAULT_TIMEOUT_SECS: u64 = 30;

/// A world's connection profile.
#[derive(Debug)]
pub struct World {
    /// Unique identifier.
    pub id: u128,
    /// Name shown to the user.
    pub name: String,
    /// Host name or address.
    pub host: String,
    /// Port.
    pub port: u16,
    /// Optional description.
    pub description: Option<String>,
    /// Connect on start-up.
    pub auto_connect: bool,
    /// Connection timeout in seconds.
    pub timeout_secs: u64,
    /// Use TLS.
    pub use_tls: bool,
}

/// A host (once trimmed) that has `..`, or starts or ends with `.`.
pub open spec fn bad_host_shape(trimmed: Seq<char>) -> bool {
    contains_seq(trimmed, ".."@) || (trimmed.len() > 0 && (trimmed[0] == '.' || trimmed.last() == '.'))
}

/// The result of validating a world with this name, host and port: the
/// first failed check in the order name, host, host shape, port.
pub open spec fn validation_ok(name: Seq<char>, host: Seq<char>, port: u16) -> bool {
    trim(name).len() > 0 && trim(host).len() > 0 && !bad_host_shape(trim(host)) && port != 0
}

/// `e` is a validation error for `field` with `reason`.
pub open spec fn is_validation_error(e: MushError, field: Seq<char>, reason: Seq<char>) -> bool {
    e matches MushError::ValidationError { field: f, reason: r } && f@ == field && r@ == reason
}

/// The error that validating a world with this name, host and port gives,
/// when it fails.
pub open spec fn validation_error(name: Seq<char>, host: Seq<char>, port: u16, e: MushError) -> bool {
    if trim(name).len() == 0 {
        is_validation_error(e, "name"@, "Name cannot be empty or whitespace only"@)
    } else if trim(host).len() == 0 {
        is_validation_error(e, "host"@, "Host cannot be empty"@)
    } else if bad_host_shape(trim(host)) {
        e matches MushError::InvalidHostname(h) && h@ == host
    } else {
        e matches MushError::InvalidPort(p) && p == 0
    }
}

/// The message of the error that validating a world with this name, host
/// and port gives, when it fails.
pub open spec fn validation_error_text(name: Seq<char>, host: Seq<char>, port: u16) -> Seq<char> {
    if trim(name).len() == 0 {
        "Invalid input for field '"@ + "name"@ + "': "@ + "Name cannot be empty or whitespace only"@
    } else if trim(host).len() == 0 {
        "Invalid input for field '"@ + "host"@ + "': "@ + "Host cannot be empty"@
    } else if bad_host_shape(trim(host)) {
        "Invalid hostname: "@ + host
    } else {
        "Invalid port: "@ + decimal_string(port as nat) + " (must be 1-65535)"@
    }
}

/// A validation error's message is the one `validation_error_text` gives.
pub proof fn lemma_validation_error_text(name: Seq<char>, host: Seq<char>, port: u16, e: MushError)
    requires
        !validation_ok(name, host, port),
        validation_error(name, host, port, e),
    ensures
        error_text(e) == validation_error_text(name, host, port),
{
}

impl World {
    /// Checks the name (not blank), the host (not blank; once trimmed, no
    /// `..` and no leading or trailing `.`) and the port (not 0).
    pub fn validate(&self) -> (r: Result<(), MushError>)
        ensures
            r is Ok <==> validation_ok(self.name@, self.host@, self.port),
            r matches Err(e) ==> validation_error(self.name@, self.host@, self.port, e),
    {
        let tn = trim_chars(self.name.as_str());
        if tn.len() == 0 {
            return Err(
                MushError::ValidationError {
                    field: to_owned_string("name"),
                    reason: to_owned_string("Name cannot be empty or whitespace only"),
                },
            );
        }
        let th = trim_chars(self.host.as_str());
        if th.len() == 0 {
            return Err(
                MushError::ValidationError {
                    field: to_owned_string("host"),
                    reason: to_owned_string("Host cannot be empty"),
                },
            );
        }
        let dots: Vec<char> = vec!['.', '.'];
        proof {
            reveal_strlit("..");
            assert(dots@ =~= ".."@);
        }
        if contains_chars(th.as_slice(), dots.as_slice()) || th[0] == '.' || th[th.len() - 1] == '.' {
            return Err(MushError::InvalidHostname(self.host.clone()));
        }
        if self.port == 0 {
            return Err(MushError::InvalidPort(self.port));
        }
        Ok(())
    }

    /// A world with the given identifier and the defaults (30 s timeout, no
    /// auto-connect, no TLS, no description), once it validates.
    pub fn new_with_id(id: u128, name: &str, host: &str, port: u16) -> (r: Result<World, MushError>)
        ensures
            r is Ok <==> validation_ok(name@, host@, port),
            r matches Ok(w) ==> {
                &&& w.id == id
                &&& w.name@ == name@
                &&& w.host@ == host@
                &&& w.port == port
                &&& w.description is None
                &&& !w.auto_connect
                &&& w.timeout_secs == DEFAULT_TIMEOUT_SECS
                &&& !w.use_tls
            },
            r matches Err(e) ==> validation_error(name@, host@, port, e),
    {
        let world = World {
            id,
            name: to_owned_string(name),
            host: to_owned_string(host),
            port,
            description: None,
            auto_connect: false,
            timeout_secs: DEFAULT_TIMEOUT_SECS,
            use_tls: false,
        };
        match world.validate() {
            Ok(()) => Ok(world),
            Err(e) => Err(e),
        }
    }

    /// A world with a fresh random identifier (see `new_with_id`).
    pub fn new(name: &str, host: &str, port: u16) -> (r: Result<World, MushError>)
        ensures
            r is Ok <==> validation_ok(name@, host@, port),
            r matches Ok(w) ==> {
                &&& w.name@ == name@
                &&& w.host@ == host@
                &&& w.port == port
                &&& w.description is None
                &&& !w.auto_connect
                &&& w.timeout_secs == DEFAULT_TIMEOUT_SECS
                &&& !w.use_tls
            },
            r matches Err(e) ==> validation_error(name@, host@, port, e),
    {
        Self::new_with_id(new_id(), name, host, port)
    }

    /// A builder for a world with optional settings.
    pub fn builder(name: &str, host: &str, port: u16) -> (b: WorldBuilder)
        ensures
            b.name@ == name@,
            b.host@ == host@,
            b.port == port,
            b.description is None,
            !b.auto_connect,
            b.timeout_secs == DEFAULT_TIMEOUT_SECS,
            !b.use_tls,
    {
        WorldBuilder::new(name, host, port)
    }

    /// A copy of the world.
    pub fn duplicate(&self) -> (w: World)
        ensures
            w.id == self.id,
            w.name@ == self.name@,
            w.host@ == self.host@,
            w.port == self.port,
            w.description == self.description,
            w.auto_connect == self.auto_connect,
            w.timeout_secs == self.timeout_secs,
            w.use_tls == self.use_tls,
    {
        World {
            id: self.id,
            name: self.name.clone(),
            host: self.host.clone(),
            port: self.port,
            description: match &self.description {
                Some(d) => Some(d.clone()),
                None => None,
            },
            auto_connect: self.auto_connect,
            timeout_secs: self.timeout_secs,
            use_tls: self.use_tls,
        }
    }
}

/// Builds a world with optional settings.
#[derive(Debug)]
pub struct WorldBuilder {
    pub id: u128,
    pub name: String,
    pub host: String,
    pub port: u16,
    pub description: Option<String>,
    pub auto_connect: bool,
    pub timeout_secs: u64,
    pub use_tls: bool,
}

impl WorldBuilder {
    /// A builder with a fresh random identifier and the defaults.
    pub fn new(name: &str, host: &str, port: u16) -> (b: Self)
        ensures
            b.name@ == name@,
            b.host@ == host@,
            b.port == port,
            b.description is None,
            !b.auto_connect,
            b.timeout_secs == DEFAULT_TIMEOUT_SECS,
            !b.use_tls,
    {
        WorldBuilder {
            id: new_id(),
            name: to_owned_string(name),
            host: to_owned_string(host),
            port,
            description: None,
            auto_connect: false,
            timeout_secs: DEFAULT_TIMEOUT_SECS,
            use_tls: false,
        }
    }

    /// Sets the identifier.
    pub fn id(self, id: u128) -> (b: Self)
        ensures
            b == (WorldBuilder { id, ..self }),
    {
        WorldBuilder { id, ..self }
    }

    /// Sets the description.
    pub fn description(self, desc: &str) -> (b: Self)
        ensures
            b.description matches Some(d) && d@ == desc@,
            b.id == self.id && b.name == self.name && b.host == self.host && b.port == self.port,
            b.auto_connect == self.auto_connect && b.timeout_secs == self.timeout_secs && b.use_tls == self.use_tls,
    {
        WorldBuilder { description: Some(to_owned_string(desc)), ..self }
    }

    /// Sets auto-connect.
    pub fn auto_connect(self, enabled: bool) -> (b: Self)
        ensures
            b == (WorldBuilder { auto_connect: enabled, ..self }),
    {
        WorldBuilder { auto_connect: enabled, ..self }
    }

    /// Sets the timeout in seconds.
    pub fn timeout_secs(self, secs: u64) -> (b: Self)
        ensures
            b == (WorldBuilder { timeout_secs: secs, ..self }),
    {
        WorldBuilder { timeout_secs: secs, ..self }
    }

    /// Sets TLS.
    pub fn use_tls(self, enabled: bool) -> (b: Self)
        ensures
            b == (WorldBuilder { use_tls: enabled, ..self }),
    {
        WorldBuilder { use_tls: enabled, ..self }
    }

    /// The world, once it validates.
    pub fn build(self) -> (r: Result<World, MushError>)
        ensures
            r is Ok <==> validation_ok(self.name@, self.host@, self.port),
            r matches Ok(w) ==> w == (World {
                id: self.id,
                name: self.name,
                host: self.host,
                port: self.port,
                description: self.description,
                auto_connect: self.auto_connect,
                timeout_secs: self.timeout_secs,
                use_tls: self.use_tls,
            }),
            r matches Err(e) ==> validation_error(self.name@, self.host@, self.port, e),
    {
        let world = World {
            id: self.id,
            name: self.name,
            host: self.host,
            port: self.port,
            description: self.description,
            auto_connect: self.auto_connect,
            timeout_secs: self.timeout_secs,
            use_tls: self.use_tls,
        };
        match world.validate() {
            Ok(()) => Ok(world),
            Err(e) => Err(e),
        }
    }
}

} // verus!
