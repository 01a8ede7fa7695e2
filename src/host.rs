//! Server endpoints and host lists such as `"a:3000,b:tls-b:4333"`.
use vstd::prelude::*;

use crate::errors::Error;
use crate::text::{
    append_decimal, decimal_text, decimal_value, parse_decimal, split_on, split_str, str_views,
};

verus! {

/// The port of a host list entry that names none.
pub const DEFAULT_PORT: u16 = 3000;

/// A host as plain values.
pub struct HostView {
    pub name: Seq<char>,
    pub port: u16,
    pub tls_name: Option<Seq<char>>,
}

/// Host name/port of database server.
#[derive(Debug, PartialEq, Eq, Hash, Clone)]
pub struct Host {
    /// Host name or IP address of database server.
    pub name: String,
    /// Port of database server.
    pub port: u16,
    /// Name used for TLS connection
    pub tls_name: Option<String>,
}

impl View for Host {
    type V = HostView;

    open spec fn view(&self) -> HostView {
        HostView {
            name: self.name@,
            port: self.port,
            tls_name: match self.tls_name {
                Some(t) => Some(t@),
                None => None,
            },
        }
    }
}

/// One host list entry `name`, `name:port` or `name:tls_name:port`, each
/// part non-empty; `default_port` where no port is given.
pub open spec fn host_of(entry: Seq<char>, default_port: u16) -> Option<HostView> {
    let parts = split_on(entry, ':');
    if exists|i: int| 0 <= i < parts.len() && (#[trigger] parts[i]).len() == 0 {
        None
    } else if parts.len() == 1 {
        Some(HostView { name: parts[0], port: default_port, tls_name: None })
    } else if parts.len() == 2 {
        match decimal_value(parts[1], u16::MAX as int) {
            Some(p) => Some(HostView { name: parts[0], port: p as u16, tls_name: None }),
            None => None,
        }
    } else if parts.len() == 3 {
        match decimal_value(parts[2], u16::MAX as int) {
            Some(p) => Some(HostView { name: parts[0], port: p as u16, tls_name: Some(parts[1]) }),
            None => None,
        }
    } else {
        None
    }
}

/// A comma-separated host list: every entry must be valid.
pub open spec fn hosts_of(s: Seq<char>, default_port: u16) -> Option<Seq<HostView>> {
    let entries = split_on(s, ',');
    if forall|i: int| 0 <= i < entries.len() ==> (#[trigger] host_of(entries[i], default_port)) is Some {
        Some(entries.map_values(|e: Seq<char>| host_of(e, default_port)->0))
    } else {
        None
    }
}

pub open spec fn host_views(v: Seq<Host>) -> Seq<HostView> {
    v.map_values(|h: Host| h@)
}

impl Host {
    /// Create a new host instance given a hostname/IP and a port number.
    pub fn new(name: &str, port: u16, tls_name: Option<&str>) -> (r: Self)
        ensures
            r@ == (HostView {
                name: name@,
                port,
                tls_name: match tls_name {
                    Some(t) => Some(t@),
                    None => None,
                },
            }),
    {
        Host {
            name: name.to_owned(),
            port,
            tls_name: match tls_name {
                Some(t) => Some(t.to_owned()),
                None => None,
            },
        }
    }

    /// Returns a string representation of the host's address: `name:port`.
    pub fn address(&self) -> (r: String)
        ensures
            r@ == self.name@ + seq![':'] + decimal_text(self.port as nat),
    {
        let mut a = self.name.clone();
        a.append(":");
        proof {
            reveal_strlit(":");
        }
        append_decimal(&mut a, self.port as u64);
        a
    }

    /// Returns the domain name to verify for a TLS connection, if any.
    pub fn tls_name(&self) -> (r: Option<&str>)
        ensures
            match r {
                Some(t) => self.tls_name matches Some(n) && t@ == n@,
                None => self.tls_name is None,
            },
    {
        match &self.tls_name {
            Some(t) => Some(t.as_str()),
            None => None,
        }
    }

    /// The name whose certificate a TLS handshake verifies: the TLS name,
    /// else the host name.
    pub fn tls_identity(&self) -> (r: &str)
        ensures
            r@ == match self.tls_name {
                Some(t) => t@,
                None => self.name@,
            },
    {
        match &self.tls_name {
            Some(t) => t.as_str(),
            None => self.name.as_str(),
        }
    }

    /// The host as text: `name:tls_name:port`, or `name:port` without a TLS name.
    pub fn to_string(&self) -> (r: String)
        ensures
            r@ == self.name@ + match self.tls_name {
                Some(t) => seq![':'] + t@,
                None => seq![],
            } + seq![':'] + decimal_text(self.port as nat),
    {
        proof {
            reveal_strlit(":");
        }
        let mut a = self.name.clone();
        match &self.tls_name {
            Some(t) => {
                a.append(":");
                a.append(t.as_str());
            },
            None => {},
        }
        a.append(":");
        append_decimal(&mut a, self.port as u64);
        assert(a@ =~= self.name@ + match self.tls_name {
            Some(t) => seq![':'] + t@,
            None => seq![],
        } + seq![':'] + decimal_text(self.port as nat));
        a
    }
}

fn invalid_hosts() -> (e: Error)
    ensures
        e is InvalidArgument,
{
    Error::InvalidArgument("Invalid hosts list".to_owned())
}

/// Parses one host list entry.
pub fn parse_host(entry: &str, default_port: u16) -> (r: Result<Host, Error>)
    ensures
        match r {
            Ok(h) => host_of(entry@, default_port) == Some(h@),
            Err(e) => host_of(entry@, default_port) is None && e is InvalidArgument,
        },
{
    let parts = split_str(entry, ':');
    let ghost pv = split_on(entry@, ':');
    let mut i: usize = 0;
    while i < parts.len()
        invariant
            i <= parts.len(),
            pv == str_views(parts@),
            pv == split_on(entry@, ':'),
            forall|j: int| 0 <= j < i ==> (#[trigger] pv[j]).len() > 0,
        decreases parts.len() - i,
    {
        if parts[i].is_empty() {
            assert(pv[i as int] == parts@[i as int]@);
            assert(pv[i as int].len() == 0);

            return Err(invalid_hosts());
        }
        i = i + 1;
    }
    assert(!exists|j: int| 0 <= j < pv.len() && (#[trigger] pv[j]).len() == 0);
    if parts.len() == 1 {
        Ok(Host::new(parts[0], default_port, None))
    } else if parts.len() == 2 {
        match parse_decimal(parts[1], 0xffff) {
            Some(p) => Ok(Host::new(parts[0], p as u16, None)),
            None => Err(invalid_hosts()),
        }
    } else if parts.len() == 3 {
        match parse_decimal(parts[2], 0xffff) {
            Some(p) => Ok(Host::new(parts[0], p as u16, Some(parts[1]))),
            None => Err(invalid_hosts()),
        }
    } else {
        Err(invalid_hosts())
    }
}

/// Parses a comma-separated host list; entries without a port get
/// `default_port`.
pub fn parse_hosts(s: &str, default_port: u16) -> (r: Result<Vec<Host>, Error>)
    ensures
        match r {
            Ok(v) => hosts_of(s@, default_port) == Some(host_views(v@)),
            Err(e) => hosts_of(s@, default_port) is None && e is InvalidArgument,
        },
{
    let entries = split_str(s, ',');
    let ghost ev = split_on(s@, ',');
    let mut hosts: Vec<Host> = Vec::new();
    let mut i: usize = 0;
    while i < entries.len()
        invariant
            i <= entries.len(),
            ev == str_views(entries@),
            ev == split_on(s@, ','),
            hosts@.len() == i,
            forall|j: int| 0 <= j < i ==> (#[trigger] host_of(ev[j], default_port)) == Some(hosts@[j]@),
        decreases entries.len() - i,
    {
        let h = match parse_host(entries[i], default_port) {
            Ok(h) => h,
            Err(e) => {
                assert(ev[i as int] == entries@[i as int]@);
                assert(host_of(ev[i as int], default_port) is None);
                return Err(e);
            },
        };
        assert(ev[i as int] == entries@[i as int]@);
        hosts.push(h);
        i = i + 1;
    }
    assert(host_views(hosts@) =~= ev.map_values(|e: Seq<char>| host_of(e, default_port)->0));
    Ok(hosts)
}

/// Objects that can be converted to one or more `Host` values.
pub trait ToHosts {
    /// The hosts this object denotes, or `None` where it is invalid.
    spec fn hosts_view(&self) -> Option<Seq<HostView>>;

    /// Converts this object into a list of `Host`s.
    fn to_hosts(&self) -> (r: Result<Vec<Host>, Error>)
        ensures
            match r {
                Ok(v) => self.hosts_view() == Some(host_views(v@)),
                Err(e) => self.hosts_view() is None && e is InvalidArgument,
            },
    ;
}

impl ToHosts for Vec<Host> {
    open spec fn hosts_view(&self) -> Option<Seq<HostView>> {
        Some(host_views(self@))
    }

    fn to_hosts(&self) -> (r: Result<Vec<Host>, Error>) {
        let mut hosts: Vec<Host> = Vec::new();
        let mut i: usize = 0;
        while i < self.len()
            invariant
                i <= self@.len(),
                hosts@.len() == i,
                forall|j: int| 0 <= j < i ==> (#[trigger] hosts@[j])@ == self@[j]@,
            decreases self@.len() - i,
        {
            let h = &self[i];
            hosts.push(Host::new(h.name.as_str(), h.port, h.tls_name()));
            i = i + 1;
        }
        assert(host_views(hosts@) =~= host_views(self@));
        Ok(hosts)
    }
}

impl ToHosts for String {
    open spec fn hosts_view(&self) -> Option<Seq<HostView>> {
        hosts_of(self@, DEFAULT_PORT)
    }

    fn to_hosts(&self) -> (r: Result<Vec<Host>, Error>) {
        parse_hosts(self.as_str(), DEFAULT_PORT)
    }
}

impl<'a> ToHosts for &'a str {
    open spec fn hosts_view(&self) -> Option<Seq<HostView>> {
        hosts_of((*self)@, DEFAULT_PORT)
    }

    fn to_hosts(&self) -> (r: Result<Vec<Host>, Error>) {
        parse_hosts(*self, DEFAULT_PORT)
    }
}

} // verus!
