//! Process configuration: storage locations and the peers the process
//! serves and forwards to. The values are plain data; reading them from
//! disk and parsing them is the embedding program's concern.

use vstd::prelude::*;

verus! {

/// The mathematical shape of one served listener.
pub struct DownstreamV {
    pub protocol: Seq<char>,
    pub addr: Seq<char>,
    pub auth_type: Seq<char>,
    pub username: Seq<char>,
    pub password: Seq<char>,
}

/// One listener this process serves: where to listen and which
/// credentials to accept.
#[derive(Debug)]
pub struct Downstream {
    protocol: String,
    addr: String,
    auth_type: String,
    username: String,
    password: String,
}

impl View for Downstream {
    type V = DownstreamV;

    closed spec fn view(&self) -> DownstreamV {
        DownstreamV {
            protocol: self.protocol@,
            addr: self.addr@,
            auth_type: self.auth_type@,
            username: self.username@,
            password: self.password@,
        }
    }
}

impl DeepView for Downstream {
    type V = DownstreamV;

    open spec fn deep_view(&self) -> DownstreamV {
        self.view()
    }
}

impl Downstream {
    pub fn new(
        protocol: String,
        addr: String,
        auth_type: String,
        username: String,
        password: String,
    ) -> (r: Downstream)
        ensures
            r@ == (DownstreamV {
                protocol: protocol@,
                addr: addr@,
                auth_type: auth_type@,
                username: username@,
                password: password@,
            }),
    {
        Downstream { protocol, addr, auth_type, username, password }
    }

    pub fn protocol(&self) -> (r: &str)
        ensures
            r@ == self@.protocol,
    {
        self.protocol.as_str()
    }

    pub fn addr(&self) -> (r: &str)
        ensures
            r@ == self@.addr,
    {
        self.addr.as_str()
    }

    pub fn auth_type(&self) -> (r: &str)
        ensures
            r@ == self@.auth_type,
    {
        self.auth_type.as_str()
    }

    pub fn username(&self) -> (r: &str)
        ensures
            r@ == self@.username,
    {
        self.username.as_str()
    }

    pub fn password(&self) -> (r: &str)
        ensures
            r@ == self@.password,
    {
        self.password.as_str()
    }
}

/// The mathematical shape of one upstream account.
pub struct UpstreamV {
    pub name: Seq<char>,
    pub protocol: Seq<char>,
    pub addr: Seq<char>,
    pub auth_type: Seq<char>,
    pub username: Seq<char>,
    pub password: Seq<char>,
}

/// One upstream account this process fetches from.
#[derive(Debug)]
pub struct Upstream {
    name: String,
    protocol: String,
    addr: String,
    auth_type: String,
    username: String,
    password: String,
}

impl View for Upstream {
    type V = UpstreamV;

    closed spec fn view(&self) -> UpstreamV {
        UpstreamV {
            name: self.name@,
            protocol: self.protocol@,
            addr: self.addr@,
            auth_type: self.auth_type@,
            username: self.username@,
            password: self.password@,
        }
    }
}

impl DeepView for Upstream {
    type V = UpstreamV;

    open spec fn deep_view(&self) -> UpstreamV {
        self.view()
    }
}

impl Upstream {
    pub fn new(
        name: String,
        protocol: String,
        addr: String,
        auth_type: String,
        username: String,
        password: String,
    ) -> (r: Upstream)
        ensures
            r@ == (UpstreamV {
                name: name@,
                protocol: protocol@,
                addr: addr@,
                auth_type: auth_type@,
                username: username@,
                password: password@,
            }),
    {
        Upstream { name, protocol, addr, auth_type, username, password }
    }

    pub fn name(&self) -> (r: &str)
        ensures
            r@ == self@.name,
    {
        self.name.as_str()
    }

    pub fn protocol(&self) -> (r: &str)
        ensures
            r@ == self@.protocol,
    {
        self.protocol.as_str()
    }

    pub fn addr(&self) -> (r: &str)
        ensures
            r@ == self@.addr,
    {
        self.addr.as_str()
    }

    pub fn auth_type(&self) -> (r: &str)
        ensures
            r@ == self@.auth_type,
    {
        self.auth_type.as_str()
    }

    pub fn username(&self) -> (r: &str)
        ensures
            r@ == self@.username,
    {
        self.username.as_str()
    }

    pub fn password(&self) -> (r: &str)
        ensures
            r@ == self@.password,
    {
        self.password.as_str()
    }
}

/// The mathematical shape of the whole configuration.
pub struct ConfigV {
    pub database_dir: Seq<char>,
    pub data_dir: Seq<char>,
    pub downstreams: Seq<DownstreamV>,
    pub upstreams: Seq<UpstreamV>,
}

/// The whole process configuration.
#[derive(Debug)]
pub struct Config {
    database_dir: String,
    data_dir: String,
    downstreams: Vec<Downstream>,
    upstreams: Vec<Upstream>,
}

impl View for Config {
    type V = ConfigV;

    closed spec fn view(&self) -> ConfigV {
        ConfigV {
            database_dir: self.database_dir@,
            data_dir: self.data_dir@,
            downstreams: self.downstreams.deep_view(),
            upstreams: self.upstreams.deep_view(),
        }
    }
}

impl Config {
    pub fn new(
        database_dir: String,
        data_dir: String,
        downstreams: Vec<Downstream>,
        upstreams: Vec<Upstream>,
    ) -> (r: Config)
        ensures
            r@ == (ConfigV {
                database_dir: database_dir@,
                data_dir: data_dir@,
                downstreams: downstreams.deep_view(),
                upstreams: upstreams.deep_view(),
            }),
    {
        Config { database_dir, data_dir, downstreams, upstreams }
    }

    pub fn database_dir(&self) -> (r: &str)
        ensures
            r@ == self@.database_dir,
    {
        self.database_dir.as_str()
    }

    pub fn data_dir(&self) -> (r: &str)
        ensures
            r@ == self@.data_dir,
    {
        self.data_dir.as_str()
    }

    pub fn downstreams(&self) -> (r: &Vec<Downstream>)
        ensures
            r.deep_view() == self@.downstreams,
    {
        &self.downstreams
    }

    pub fn upstreams(&self) -> (r: &Vec<Upstream>)
        ensures
            r.deep_view() == self@.upstreams,
    {
        &self.upstreams
    }
}

} // verus!
