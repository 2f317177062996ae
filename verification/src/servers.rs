//! Server/context manager: the set of named execution targets (the local
//! daemon and remote SSH hosts), their connection state, the single active
//! selection, and value-level export/import of the server list.

use vstd::prelude::*;
use vstd::string::StrSliceExecFns;
use vstd::string::StringExecFns;

use crate::strutil::str_eq;
use crate::strutil::spec_trim;
use crate::strutil::trim;
use crate::strutil::spec_starts_with;
use crate::trusted::fresh_uuid;
use crate::trusted::now_rfc3339;

verus! {

/// SSH authentication data (password based).
#[derive(Debug)]
pub struct AuthMethod {
    pub password: String,
}

impl Clone for AuthMethod {
    fn clone(&self) -> (r: Self)
        ensures
            r == *self,
    {
        AuthMethod { password: self.password.clone() }
    }
}

/// Connection settings of one remote SSH server.
#[derive(Debug)]
pub struct SshServerConfig {
    pub name: String,
    pub host: String,
    pub port: u16,
    pub username: String,
    pub auth_method: AuthMethod,
    pub docker_socket: Option<String>,
}

impl Clone for SshServerConfig {
    fn clone(&self) -> (r: Self)
        ensures
            r == *self,
    {
        SshServerConfig {
            name: self.name.clone(),
            host: self.host.clone(),
            port: self.port,
            username: self.username.clone(),
            auth_method: self.auth_method.clone(),
            docker_socket: match &self.docker_socket {
                Some(s) => Some(s.clone()),
                None => None,
            },
        }
    }
}

/// The first reason for which this configuration is invalid, or `None` when
/// it is usable: name, host, username and password must not be blank and the
/// port must not be zero.
pub open spec fn spec_validate_ssh(c: SshServerConfig) -> Option<Seq<char>> {
    if spec_trim(c.name@).len() == 0 {
        Some("Nome do servidor nao pode estar vazio"@)
    } else if spec_trim(c.host@).len() == 0 {
        Some("Host nao pode estar vazio"@)
    } else if c.port == 0 {
        Some("Porta deve ser maior que 0"@)
    } else if spec_trim(c.username@).len() == 0 {
        Some("Username nao pode estar vazio"@)
    } else if spec_trim(c.auth_method.password@).len() == 0 {
        Some("Senha nao pode estar vazia"@)
    } else {
        None
    }
}

impl SshServerConfig {
    /// Builds a password-authenticated server entry.
    pub fn new_with_password(
        name: String,
        host: String,
        port: u16,
        username: String,
        password: String,
    ) -> (r: Self)
        ensures
            r.name == name,
            r.host == host,
            r.port == port,
            r.username == username,
            r.auth_method.password == password,
            r.docker_socket is None,
    {
        SshServerConfig {
            name,
            host,
            port,
            username,
            auth_method: AuthMethod { password },
            docker_socket: None,
        }
    }

    /// Sets a custom Docker socket path.
    pub fn with_docker_socket(self, socket_path: String) -> (r: Self)
        ensures
            r == (SshServerConfig { docker_socket: Some(socket_path), ..self }),
    {
        SshServerConfig { docker_socket: Some(socket_path), ..self }
    }

    /// The Docker socket path, defaulting to the standard Unix socket.
    pub fn get_docker_socket(&self) -> (r: String)
        ensures
            r@ == match self.docker_socket {
                Some(s) => s@,
                None => "unix:///var/run/docker.sock"@,
            },
    {
        match &self.docker_socket {
            Some(s) => s.clone(),
            None => "unix:///var/run/docker.sock".to_owned(),
        }
    }

    /// Checks the configuration; `Err` carries the first failure reason, per
    /// `spec_validate_ssh`.
    pub fn validate(&self) -> (r: Result<(), String>)
        ensures
            match r {
                Ok(()) => spec_validate_ssh(*self) is None,
                Err(m) => spec_validate_ssh(*self) == Some(m@),
            },
    {
        if trim(self.name.as_str()).unicode_len() == 0 {
            Err("Nome do servidor nao pode estar vazio".to_owned())
        } else if trim(self.host.as_str()).unicode_len() == 0 {
            Err("Host nao pode estar vazio".to_owned())
        } else if self.port == 0 {
            Err("Porta deve ser maior que 0".to_owned())
        } else if trim(self.username.as_str()).unicode_len() == 0 {
            Err("Username nao pode estar vazio".to_owned())
        } else if trim(self.auth_method.password.as_str()).unicode_len() == 0 {
            Err("Senha nao pode estar vazia".to_owned())
        } else {
            Ok(())
        }
    }
}

/// What kind of execution target a server is.
#[derive(Debug)]
pub enum ServerType {
    Local,
    Remote(SshServerConfig),
}

impl Clone for ServerType {
    fn clone(&self) -> (r: Self)
        ensures
            r == *self,
    {
        match self {
            ServerType::Local => ServerType::Local,
            ServerType::Remote(c) => ServerType::Remote(c.clone()),
        }
    }
}

/// One managed server entry.
#[derive(Debug)]
pub struct ServerInfo {
    pub id: String,
    pub name: String,
    pub server_type: ServerType,
    pub description: Option<String>,
    pub is_active: bool,
    pub is_connected: bool,
    pub last_connected: Option<String>,
    pub docker_version: Option<String>,
    pub containers_count: usize,
    pub images_count: usize,
    pub networks_count: usize,
    pub volumes_count: usize,
}

impl Clone for ServerInfo {
    fn clone(&self) -> (r: Self)
        ensures
            r == *self,
    {
        ServerInfo {
            id: self.id.clone(),
            name: self.name.clone(),
            server_type: self.server_type.clone(),
            description: match &self.description {
                Some(s) => Some(s.clone()),
                None => None,
            },
            is_active: self.is_active,
            is_connected: self.is_connected,
            last_connected: match &self.last_connected {
                Some(s) => Some(s.clone()),
                None => None,
            },
            docker_version: match &self.docker_version {
                Some(s) => Some(s.clone()),
                None => None,
            },
            containers_count: self.containers_count,
            images_count: self.images_count,
            networks_count: self.networks_count,
            volumes_count: self.volumes_count,
        }
    }
}

/// Connectivity status of one server.
#[derive(Debug, Clone)]
pub enum ServerStatus {
    Connected,
    Disconnected,
    Connecting,
    Error(String),
}

/// Outcome of one bulk operation on a server.
#[derive(Debug, Clone)]
pub struct ServerOperationResult {
    pub server_id: String,
    pub success: bool,
    pub message: String,
}

/// The map that a sequence of server entries stands for: later entries win.
pub open spec fn info_map(es: Seq<ServerInfo>) -> Map<Seq<char>, ServerInfo>
    decreases es.len(),
{
    if es.len() == 0 {
        Map::empty()
    } else {
        info_map(es.drop_last()).insert(es.last().id@, es.last())
    }
}

/// No two entries share an id.
pub open spec fn unique_ids(es: Seq<ServerInfo>) -> bool {
    forall|i: int, j: int| 0 <= i < j < es.len() ==> es[i].id@ != es[j].id@
}

proof fn lemma_info_absent(es: Seq<ServerInfo>, k: Seq<char>)
    requires
        forall|i: int| 0 <= i < es.len() ==> es[i].id@ != k,
    ensures
        !info_map(es).contains_key(k),
    decreases es.len(),
{
    if es.len() > 0 {
        lemma_info_absent(es.drop_last(), k);
    }
}

proof fn lemma_info_find(es: Seq<ServerInfo>, i: int)
    requires
        unique_ids(es),
        0 <= i < es.len(),
    ensures
        info_map(es).contains_key(es[i].id@),
        info_map(es)[es[i].id@] == es[i],
    decreases es.len(),
{
    if i < es.len() - 1 {
        lemma_info_find(es.drop_last(), i);
        assert(es.last().id@ != es[i].id@);
    }
}

proof fn lemma_info_remove(es: Seq<ServerInfo>, i: int)
    requires
        unique_ids(es),
        0 <= i < es.len(),
    ensures
        info_map(es.remove(i)) =~= info_map(es).remove(es[i].id@),
    decreases es.len(),
{
    let k = es[i].id@;
    if i == es.len() - 1 {
        assert(es.remove(i) =~= es.drop_last());
        lemma_info_absent(es.drop_last(), k);
        assert(info_map(es.drop_last()).insert(k, es[i]).remove(k) =~= info_map(es.drop_last()));
    } else {
        lemma_info_remove(es.drop_last(), i);
        assert(es.remove(i).drop_last() =~= es.drop_last().remove(i));
        assert(es.remove(i).last() == es.last());
        assert(es.last().id@ != k);
        assert(info_map(es.remove(i)) == info_map(es.drop_last().remove(i)).insert(
            es.last().id@,
            es.last(),
        ));
        assert(info_map(es.drop_last()).remove(k).insert(es.last().id@, es.last())
            =~= info_map(es.drop_last()).insert(es.last().id@, es.last()).remove(k));
    }
}

/// What importing a list of entries into a map yields: entries whose id is
/// already present are skipped, the rest are inserted.
pub open spec fn spec_import(m: Map<Seq<char>, ServerInfo>, s: Seq<ServerInfo>) -> Map<
    Seq<char>,
    ServerInfo,
>
    decreases s.len(),
{
    if s.len() == 0 {
        m
    } else {
        let m2 = spec_import(m, s.drop_last());
        if m2.contains_key(s.last().id@) {
            m2
        } else {
            m2.insert(s.last().id@, s.last())
        }
    }
}

/// How many entries an import adds.
pub open spec fn spec_import_count(m: Map<Seq<char>, ServerInfo>, s: Seq<ServerInfo>) -> nat
    decreases s.len(),
{
    if s.len() == 0 {
        0
    } else {
        let c2 = spec_import_count(m, s.drop_last());
        if spec_import(m, s.drop_last()).contains_key(s.last().id@) {
            c2
        } else {
            c2 + 1
        }
    }
}

/// `s` lists exactly the entries of `m`, each under its own id, without
/// repetition.
pub open spec fn enumerates(s: Seq<ServerInfo>, m: Map<Seq<char>, ServerInfo>) -> bool {
    &&& unique_ids(s)
    &&& forall|i: int|
        0 <= i < s.len() ==> m.contains_key(#[trigger] s[i].id@) && m[s[i].id@] == s[i]
    &&& forall|k: Seq<char>|
        m.contains_key(k) ==> exists|i: int| 0 <= i < s.len() && (#[trigger] s[i].id@) == k
}

/// Law: re-importing an exported server list into an empty registry yields
/// exactly the map that was exported.
pub proof fn lemma_export_import_round_trip(m: Map<Seq<char>, ServerInfo>, s: Seq<ServerInfo>)
    requires
        enumerates(s, m),
    ensures
        spec_import(Map::empty(), s) =~= m,
    decreases s.len(),
{
    if s.len() == 0 {
        assert forall|k: Seq<char>| !m.contains_key(k) by {
            if m.contains_key(k) {
                let i = choose|i: int| 0 <= i < s.len() && (#[trigger] s[i].id@) == k;
            }
        }
    } else {
        let x = s.last();
        let m1 = m.remove(x.id@);
        let s1 = s.drop_last();
        assert(enumerates(s1, m1)) by {
            assert forall|i: int| 0 <= i < s1.len() implies m1.contains_key(#[trigger] s1[i].id@)
                && m1[s1[i].id@] == s1[i] by {
                assert(s1[i] == s[i]);
                assert(s[i].id@ != x.id@);
            }
            assert forall|k: Seq<char>| m1.contains_key(k) implies exists|i: int|
                0 <= i < s1.len() && (#[trigger] s1[i].id@) == k by {
                assert(m.contains_key(k));
                let i = choose|i: int| 0 <= i < s.len() && (#[trigger] s[i].id@) == k;
                assert(k != x.id@);
                assert(i < s.len() - 1);
                assert(s1[i].id@ == k);
            }
        }
        lemma_export_import_round_trip(m1, s1);
        assert(!spec_import(Map::empty(), s1).contains_key(x.id@)) by {
            assert(!m1.contains_key(x.id@));
        }
        assert(spec_import(Map::empty(), s) =~= m1.insert(x.id@, x));
        assert(m.contains_key(x.id@) && m[x.id@] == x) by {
            assert(s[s.len() - 1].id@ == x.id@);
        }
        assert(m1.insert(x.id@, x) =~= m);
    }
}

/// Manager of the set of servers and of the single active selection.
pub struct RemoteServerManager {
    servers: Vec<ServerInfo>,
    active_server: Option<String>,
}

impl View for RemoteServerManager {
    type V = Map<Seq<char>, ServerInfo>;

    closed spec fn view(&self) -> Map<Seq<char>, ServerInfo> {
        info_map(self.servers@)
    }
}

impl RemoteServerManager {
    #[verifier::type_invariant]
    spec fn inv(&self) -> bool {
        unique_ids(self.servers@)
    }

    /// The currently selected server id, as an abstract value.
    pub closed spec fn spec_active(&self) -> Option<Seq<char>> {
        match self.active_server {
            Some(s) => Some(s@),
            None => None,
        }
    }

    /// An empty registry with no active server.
    pub fn new() -> (r: Self)
        ensures
            r@ == Map::<Seq<char>, ServerInfo>::empty(),
            r.spec_active() is None,
    {
        RemoteServerManager { servers: Vec::new(), active_server: None }
    }

    fn find_index(&self, server_id: &str) -> (r: Option<usize>)
        ensures
            match r {
                Some(i) => i < self.servers@.len() && self.servers@[i as int].id@ == server_id@,
                None => forall|j: int|
                    0 <= j < self.servers@.len() ==> (#[trigger] self.servers@[j].id@)
                        != server_id@,
            },
    {
        let mut i: usize = 0;
        let n = self.servers.len();
        while i < n
            invariant
                n == self.servers@.len(),
                i <= n,
                forall|j: int|
                    0 <= j < i ==> (#[trigger] self.servers@[j].id@) != server_id@,
            decreases n - i,
        {
            if str_eq(self.servers[i].id.as_str(), server_id) {
                return Some(i);
            }
            i = i + 1;
        }
        None
    }

    /// Registers a local server entry; the generated id is returned. The
    /// entry starts active and connected-never; the first server added
    /// becomes the active selection.
    pub fn add_local_server(&mut self, name: String, description: Option<String>) -> (r: String)
        ensures
            spec_starts_with(r@, "local_"@),
            final(self)@ == old(self)@.insert(r@, final(self)@[r@]),
            final(self)@.contains_key(r@),
            ({
                let info = final(self)@[r@];
                info.id@ == r@ && info.name == name && info.server_type is Local
                    && info.description == description && info.is_active == true
                    && info.is_connected == false && info.last_connected is Some
                    && info.docker_version is None && info.containers_count == 0
                    && info.images_count == 0 && info.networks_count == 0 && info.volumes_count
                    == 0
            }),
            final(self).spec_active() == match old(self).spec_active() {
                Some(a) => Some(a),
                None => Some(r@),
            },
    {
        proof {
            use_type_invariant(&*self);
        }
        let u = fresh_uuid();
        let short = u.as_str().substring_char(0, 8);
        let mut id = "local_".to_owned();
        id.append(short);
        proof {
            reveal_strlit("local_");
        }
        let info = ServerInfo {
            id: id.clone(),
            name,
            server_type: ServerType::Local,
            description,
            is_active: true,
            is_connected: false,
            last_connected: Some(now_rfc3339()),
            docker_version: None,
            containers_count: 0,
            images_count: 0,
            networks_count: 0,
            volumes_count: 0,
        };
        self.insert_info(info);
        proof {
            use_type_invariant(&*self);
            assert((("local_"@ + short@)).take("local_"@.len() as int) =~= "local_"@);
        }
        if self.active_server.is_none() {
            self.active_server = Some(id.clone());
        }
        id
    }

    /// Registers a remote server entry after validating its SSH settings;
    /// the generated id is returned. The entry starts inactive and the
    /// active selection is unchanged.
    pub fn add_remote_server(
        &mut self,
        name: String,
        ssh_config: SshServerConfig,
        description: Option<String>,
    ) -> (r: Result<String, String>)
        ensures
            match r {
                Ok(id) => {
                    &&& spec_validate_ssh(ssh_config) is None
                    &&& spec_starts_with(id@, "remote_"@)
                    &&& final(self)@ == old(self)@.insert(id@, final(self)@[id@])
                    &&& final(self)@.contains_key(id@)
                    &&& ({
                        let info = final(self)@[id@];
                        info.id@ == id@ && info.name == name && info.server_type == ServerType::Remote(ssh_config)
                            && info.description == description && info.is_active == false
                            && info.is_connected == false && info.last_connected is None
                            && info.docker_version is None && info.containers_count == 0
                            && info.images_count == 0 && info.networks_count == 0
                            && info.volumes_count == 0
                    })
                    &&& final(self).spec_active() == old(self).spec_active()
                },
                Err(m) => {
                    &&& spec_validate_ssh(ssh_config) is Some
                    &&& *final(self) == *old(self)
                    &&& m@ == "Configuracao SSH invalida: "@ + spec_validate_ssh(
                        ssh_config,
                    )->Some_0
                },
            },
    {
        proof {
            use_type_invariant(&*self);
        }
        match ssh_config.validate() {
            Ok(()) => {},
            Err(e) => {
                let mut m = "Configuracao SSH invalida: ".to_owned();
                m.append(e.as_str());
                return Err(m);
            },
        }
        let u = fresh_uuid();
        let short = u.as_str().substring_char(0, 8);
        let mut id = "remote_".to_owned();
        id.append(short);
        proof {
            reveal_strlit("remote_");
        }
        let info = ServerInfo {
            id: id.clone(),
            name,
            server_type: ServerType::Remote(ssh_config),
            description,
            is_active: false,
            is_connected: false,
            last_connected: None,
            docker_version: None,
            containers_count: 0,
            images_count: 0,
            networks_count: 0,
            volumes_count: 0,
        };
        self.insert_info(info);
        proof {
            use_type_invariant(&*self);
            assert((("remote_"@ + short@)).take("remote_"@.len() as int) =~= "remote_"@);
        }
        Ok(id)
    }

    /// Inserts (or replaces) an entry under its id.
    fn insert_info(&mut self, info: ServerInfo)
        ensures
            final(self)@ == old(self)@.insert(info.id@, info),
            final(self).spec_active() == old(self).spec_active(),
    {
        proof {
            use_type_invariant(&*self);
        }
        let ghost e0 = self.servers@;
        let mut es: Vec<ServerInfo> = Vec::new();
        core::mem::swap(&mut es, &mut self.servers);
        let n = es.len();
        let mut i: usize = 0;
        let mut found: Option<usize> = None;
        while i < n
            invariant
                n == es@.len(),
                i <= n,
                match found {
                    Some(fi) => fi < i && es@[fi as int].id@ == info.id@,
                    None => forall|j: int| 0 <= j < i ==> (#[trigger] es@[j].id@) != info.id@,
                },
            decreases n - i,
        {
            if found.is_none() && str_eq(es[i].id.as_str(), info.id.as_str()) {
                found = Some(i);
            }
            i = i + 1;
        }
        match found {
            Some(fi) => {
                proof {
                    lemma_info_remove(e0, fi as int);
                }
                let _ = es.remove(fi);
                proof {
                    assert forall|j: int| 0 <= j < es@.len() implies (#[trigger] es@[j].id@)
                        != info.id@ by {
                        if j < fi {
                            assert(es@[j] == e0[j]);
                        } else {
                            assert(es@[j] == e0[j + 1]);
                        }
                    }
                    assert forall|a: int, b: int| 0 <= a < b < es@.len() implies es@[a].id@
                        != es@[b].id@ by {
                        let a0 = if a < fi {
                            a
                        } else {
                            a + 1
                        };
                        let b0 = if b < fi {
                            b
                        } else {
                            b + 1
                        };
                        assert(es@[a] == e0[a0]);
                        assert(es@[b] == e0[b0]);
                    }
                }
                let ghost e1 = es@;
                es.push(info);
                proof {
                    assert(es@.drop_last() =~= e1);
                    lemma_info_absent(e1, es@.last().id@);
                    assert(info_map(es@) =~= info_map(e0).insert(es@.last().id@, es@.last()));
                }
            },
            None => {
                let ghost e1 = es@;
                es.push(info);
                proof {
                    assert(es@.drop_last() =~= e1);
                }
            },
        }
        self.servers = es;
    }

    /// Removes a server; returns whether it existed. When the removed server
    /// was the active selection, the selection is cleared.
    pub fn remove_server(&mut self, server_id: &str) -> (r: bool)
        ensures
            final(self)@ == old(self)@.remove(server_id@),
            r == old(self)@.contains_key(server_id@),
            final(self).spec_active() == if old(self).spec_active() == Some(server_id@) {
                None::<Seq<char>>
            } else {
                old(self).spec_active()
            },
    {
        proof {
            use_type_invariant(&*self);
        }
        let found = self.find_index(server_id);
        let r = match found {
            Some(i) => {
                proof {
                    lemma_info_find(self.servers@, i as int);
                    lemma_info_remove(self.servers@, i as int);
                }
                let ghost e0 = self.servers@;
                let mut es: Vec<ServerInfo> = Vec::new();
                core::mem::swap(&mut es, &mut self.servers);
                let _ = es.remove(i);
                proof {
                    assert forall|a: int, b: int| 0 <= a < b < es@.len() implies es@[a].id@
                        != es@[b].id@ by {
                        let a0 = if a < i {
                            a
                        } else {
                            a + 1
                        };
                        let b0 = if b < i {
                            b
                        } else {
                            b + 1
                        };
                        assert(es@[a] == e0[a0]);
                        assert(es@[b] == e0[b0]);
                    }
                }
                self.servers = es;
                true
            },
            None => {
                proof {
                    lemma_info_absent(self.servers@, server_id@);
                    assert(self@.remove(server_id@) =~= self@);
                }
                false
            },
        };
        let clear = match &self.active_server {
            Some(a) => str_eq(a.as_str(), server_id),
            None => false,
        };
        if clear {
            self.active_server = None;
        }
        r
    }

    /// Looks up one server entry by id.
    pub fn get_server(&self, server_id: &str) -> (r: Option<ServerInfo>)
        ensures
            match r {
                Some(info) => self@.contains_key(server_id@) && info == self@[server_id@],
                None => !self@.contains_key(server_id@),
            },
    {
        proof {
            use_type_invariant(self);
        }
        match self.find_index(server_id) {
            Some(i) => {
                proof {
                    lemma_info_find(self.servers@, i as int);
                }
                Some(self.servers[i].clone())
            },
            None => {
                proof {
                    lemma_info_absent(self.servers@, server_id@);
                }
                None
            },
        }
    }

    /// The currently selected server id.
    pub fn get_active_server(&self) -> (r: Option<String>)
        ensures
            match r {
                Some(s) => self.spec_active() == Some(s@),
                None => self.spec_active() is None,
            },
    {
        match &self.active_server {
            Some(s) => Some(s.clone()),
            None => None,
        }
    }

    /// Selects a server; fails when the id is unknown. Other servers need
    /// not be disconnected first.
    pub fn set_active_server(&mut self, server_id: &str) -> (r: Result<(), String>)
        ensures
            final(self)@ == old(self)@,
            match r {
                Ok(()) => old(self)@.contains_key(server_id@) && final(self).spec_active()
                    == Some(server_id@),
                Err(_) => !old(self)@.contains_key(server_id@) && final(self).spec_active()
                    == old(self).spec_active(),
            },
    {
        proof {
            use_type_invariant(&*self);
        }
        match self.find_index(server_id) {
            Some(i) => {
                proof {
                    lemma_info_find(self.servers@, i as int);
                }
                self.active_server = Some(server_id.to_owned());
                Ok(())
            },
            None => {
                proof {
                    lemma_info_absent(self.servers@, server_id@);
                }
                let mut m = "Servidor '".to_owned();
                m.append(server_id);
                m.append("' nao encontrado");
                Err(m)
            },
        }
    }

    /// Marks a server as active/connected, stamping the connection time.
    pub fn connect_to_server(&mut self, server_id: &str) -> (r: Result<(), String>)
        ensures
            match r {
                Ok(()) => {
                    &&& old(self)@.contains_key(server_id@)
                    &&& final(self)@ =~= old(self)@.insert(server_id@, final(self)@[server_id@])
                    &&& final(self)@.contains_key(server_id@)
                    &&& ({
                        let info = final(self)@[server_id@];
                        let was = old(self)@[server_id@];
                        info.is_active == true && info.last_connected is Some && info.id == was.id
                            && info.name == was.name && info.server_type == was.server_type
                            && info.description == was.description && info.is_connected
                            == was.is_connected && info.docker_version == was.docker_version
                            && info.containers_count == was.containers_count && info.images_count
                            == was.images_count && info.networks_count == was.networks_count
                            && info.volumes_count == was.volumes_count
                    })
                },
                Err(_) => !old(self)@.contains_key(server_id@) && final(self)@ == old(self)@,
            },
            final(self).spec_active() == old(self).spec_active(),
    {
        proof {
            use_type_invariant(&*self);
        }
        match self.get_server(server_id) {
            Some(info) => {
                proof {
                    lemma_info_key(self.servers@, server_id@);
                }
                let updated = ServerInfo {
                    is_active: true,
                    last_connected: Some(now_rfc3339()),
                    ..info
                };
                self.insert_info(updated);
                proof {
                    assert(updated.id@ == server_id@);
                }
                Ok(())
            },
            None => {
                let mut m = "Servidor '".to_owned();
                m.append(server_id);
                m.append("' nao encontrado");
                Err(m)
            },
        }
    }

    /// Marks a server as inactive.
    pub fn disconnect_from_server(&mut self, server_id: &str) -> (r: Result<(), String>)
        ensures
            match r {
                Ok(()) => {
                    &&& old(self)@.contains_key(server_id@)
                    &&& final(self)@ =~= old(self)@.insert(server_id@, final(self)@[server_id@])
                    &&& final(self)@.contains_key(server_id@)
                    &&& ({
                        let info = final(self)@[server_id@];
                        let was = old(self)@[server_id@];
                        info.is_active == false && info.id == was.id && info.name == was.name
                            && info.server_type == was.server_type && info.description
                            == was.description && info.is_connected == was.is_connected
                            && info.last_connected == was.last_connected && info.docker_version
                            == was.docker_version && info.containers_count == was.containers_count
                            && info.images_count == was.images_count && info.networks_count
                            == was.networks_count && info.volumes_count == was.volumes_count
                    })
                },
                Err(_) => !old(self)@.contains_key(server_id@) && final(self)@ == old(self)@,
            },
            final(self).spec_active() == old(self).spec_active(),
    {
        proof {
            use_type_invariant(&*self);
        }
        match self.get_server(server_id) {
            Some(info) => {
                proof {
                    lemma_info_key(self.servers@, server_id@);
                }
                let updated = ServerInfo { is_active: false, ..info };
                self.insert_info(updated);
                proof {
                    assert(updated.id@ == server_id@);
                }
                Ok(())
            },
            None => {
                let mut m = "Servidor '".to_owned();
                m.append(server_id);
                m.append("' nao encontrado");
                Err(m)
            },
        }
    }

    /// Hands out the whole server list: exactly one entry per registered id.
    pub fn list_servers(&self) -> (r: Vec<ServerInfo>)
        ensures
            enumerates(r@, self@),
    {
        proof {
            use_type_invariant(self);
        }
        let mut out: Vec<ServerInfo> = Vec::new();
        let mut i: usize = 0;
        let n = self.servers.len();
        while i < n
            invariant
                n == self.servers@.len(),
                unique_ids(self.servers@),
                self@ == info_map(self.servers@),
                i <= n,
                out@ =~= self.servers@.take(i as int),
            decreases n - i,
        {
            out.push(self.servers[i].clone());
            proof {
                assert(out@ =~= self.servers@.take(i as int + 1));
            }
            i = i + 1;
        }
        proof {
            assert(out@ =~= self.servers@);
            assert forall|i2: int| 0 <= i2 < out@.len() implies self@.contains_key(
                #[trigger] out@[i2].id@,
            ) && self@[out@[i2].id@] == out@[i2] by {
                lemma_info_find(self.servers@, i2);
            }
            assert forall|k: Seq<char>| self@.contains_key(k) implies exists|i2: int|
                0 <= i2 < out@.len() && (#[trigger] out@[i2].id@) == k by {
                lemma_info_dom(self.servers@, k);
            }
        }
        out
    }

    /// Exports the server list for persistence: the same enumeration that
    /// `list_servers` hands out.
    pub fn export_servers_config(&self) -> (r: Vec<ServerInfo>)
        ensures
            enumerates(r@, self@),
    {
        self.list_servers()
    }

    /// Imports server entries, skipping ids that already exist; returns how
    /// many were added.
    pub fn import_servers_config(&mut self, imported: Vec<ServerInfo>) -> (r: usize)
        ensures
            final(self)@ == spec_import(old(self)@, imported@),
            r as nat == spec_import_count(old(self)@, imported@),
            final(self).spec_active() == old(self).spec_active(),
    {
        proof {
            use_type_invariant(&*self);
        }
        let ghost m0 = self@;
        let ghost iv = imported@;
        let mut imported = imported;
        let total = imported.len();
        let mut added: usize = 0;
        let ghost mut done: int = 0;
        proof {
            assert(iv.len() == total);
            assert(iv.take(0) =~= Seq::<ServerInfo>::empty());
        }
        while imported.len() > 0
            invariant
                0 <= done <= iv.len(),
                imported@ =~= iv.skip(done),
                self@ == spec_import(m0, iv.take(done)),
                added as nat == spec_import_count(m0, iv.take(done)),
                added <= done,
                iv.len() <= usize::MAX,
                self.spec_active() == old(self).spec_active(),
            decreases imported@.len(),
        {
            let x = imported.remove(0);
            proof {
                assert(x == iv[done]);
                assert(imported@ =~= iv.skip(done + 1));
                assert(iv.take(done + 1).drop_last() =~= iv.take(done));
                assert(iv.take(done + 1).last() == iv[done]);
            }
            match self.find_index(x.id.as_str()) {
                Some(i) => {
                    proof {
                        use_type_invariant(&*self);
                        lemma_info_find(self.servers@, i as int);
                    }
                },
                None => {
                    proof {
                        lemma_info_absent(self.servers@, x.id@);
                    }
                    self.insert_info(x);
                    added = added + 1;
                },
            }
            proof {
                done = done + 1;
            }
        }
        proof {
            assert(iv.take(iv.len() as int) =~= iv);
        }
        added
    }

    /// Connects every registered server: each entry ends active with a fresh
    /// connection stamp, everything else about it unchanged, and one
    /// successful result is reported per server.
    pub fn connect_all(&mut self) -> (r: Vec<ServerOperationResult>)
        ensures
            final(self)@.dom() == old(self)@.dom(),
            final(self).spec_active() == old(self).spec_active(),
            forall|k: Seq<char>|
                old(self)@.contains_key(k) ==> {
                    let info = #[trigger] final(self)@[k];
                    let was = old(self)@[k];
                    info.is_active == true && info.last_connected is Some && info.id == was.id
                        && info.name == was.name && info.server_type == was.server_type
                        && info.description == was.description && info.is_connected
                        == was.is_connected && info.docker_version == was.docker_version
                        && info.containers_count == was.containers_count && info.images_count
                        == was.images_count && info.networks_count == was.networks_count
                        && info.volumes_count == was.volumes_count
                },
            exists|es: Seq<ServerInfo>|
                #[trigger] enumerates(es, old(self)@) && r@.len() == es.len() && (forall|i: int|
                    0 <= i < r@.len() ==> (#[trigger] r@[i]).success == true && r@[i].server_id
                        == es[i].id && r@[i].message@ == "Conectado com sucesso"@),
    {
        let servers = self.list_servers();
        let ghost es = servers@;
        let ghost m0 = self@;
        let mut results: Vec<ServerOperationResult> = Vec::new();
        let mut i: usize = 0;
        while i < servers.len()
            invariant
                es == servers@,
                enumerates(es, m0),
                m0 == old(self)@,
                self@.dom() =~= m0.dom(),
                self.spec_active() == old(self).spec_active(),
                i <= es.len(),
                results@.len() == i,
                forall|j: int|
                    0 <= j < i ==> (#[trigger] results@[j]).success == true && results@[j].server_id
                        == es[j].id && results@[j].message@ == "Conectado com sucesso"@,
                forall|k: Seq<char>|
                    m0.contains_key(k) ==> {
                        let info = #[trigger] self@[k];
                        let was = m0[k];
                        if exists|j: int| 0 <= j < i && (#[trigger] es[j].id@) == k {
                            info.is_active == true && info.last_connected is Some && info.id
                                == was.id && info.name == was.name && info.server_type
                                == was.server_type && info.description == was.description
                                && info.is_connected == was.is_connected && info.docker_version
                                == was.docker_version && info.containers_count
                                == was.containers_count && info.images_count == was.images_count
                                && info.networks_count == was.networks_count && info.volumes_count
                                == was.volumes_count
                        } else {
                            info == was
                        }
                    },
            decreases es.len() - i,
        {
            let ghost k = es[i as int].id@;
            proof {
                assert(m0.contains_key(k));
                assert(!(exists|j: int| 0 <= j < i && (#[trigger] es[j].id@) == k));
                assert(self@[k] == m0[k]);
            }
            let id = servers[i].id.clone();
            let res = self.connect_to_server(id.as_str());
            proof {
                assert(res is Ok);
            }
            results.push(
                ServerOperationResult {
                    server_id: id,
                    success: true,
                    message: "Conectado com sucesso".to_owned(),
                },
            );
            proof {
                assert forall|k2: Seq<char>| m0.contains_key(k2) implies self@.contains_key(
                    k2,
                ) by {}
                assert(self@.dom() =~= m0.dom());
            }
            i = i + 1;
        }
        proof {
            assert forall|k2: Seq<char>| m0.contains_key(k2) implies exists|j: int|
                0 <= j < es.len() && (#[trigger] es[j].id@) == k2 by {}
        }
        results
    }

    /// Disconnects every registered server: each entry ends inactive, with
    /// everything else about it unchanged.
    pub fn disconnect_all(&mut self) -> (r: Vec<ServerOperationResult>)
        ensures
            final(self)@.dom() == old(self)@.dom(),
            final(self).spec_active() == old(self).spec_active(),
            forall|k: Seq<char>|
                old(self)@.contains_key(k) ==> {
                    let info = #[trigger] final(self)@[k];
                    let was = old(self)@[k];
                    info.is_active == false && info.id == was.id && info.name == was.name
                        && info.server_type == was.server_type && info.description
                        == was.description && info.is_connected == was.is_connected
                        && info.last_connected == was.last_connected && info.docker_version
                        == was.docker_version && info.containers_count == was.containers_count
                        && info.images_count == was.images_count && info.networks_count
                        == was.networks_count && info.volumes_count == was.volumes_count
                },
            exists|es: Seq<ServerInfo>|
                #[trigger] enumerates(es, old(self)@) && r@.len() == es.len() && (forall|i: int|
                    0 <= i < r@.len() ==> (#[trigger] r@[i]).success == true && r@[i].server_id
                        == es[i].id && r@[i].message@ == "Desconectado com sucesso"@),
    {
        let servers = self.list_servers();
        let ghost es = servers@;
        let ghost m0 = self@;
        let mut results: Vec<ServerOperationResult> = Vec::new();
        let mut i: usize = 0;
        while i < servers.len()
            invariant
                es == servers@,
                enumerates(es, m0),
                m0 == old(self)@,
                self@.dom() =~= m0.dom(),
                self.spec_active() == old(self).spec_active(),
                i <= es.len(),
                results@.len() == i,
                forall|j: int|
                    0 <= j < i ==> (#[trigger] results@[j]).success == true && results@[j].server_id
                        == es[j].id && results@[j].message@ == "Desconectado com sucesso"@,
                forall|k: Seq<char>|
                    m0.contains_key(k) ==> {
                        let info = #[trigger] self@[k];
                        let was = m0[k];
                        if exists|j: int| 0 <= j < i && (#[trigger] es[j].id@) == k {
                            info.is_active == false && info.id == was.id && info.name == was.name
                                && info.server_type == was.server_type && info.description
                                == was.description && info.is_connected == was.is_connected
                                && info.last_connected == was.last_connected
                                && info.docker_version == was.docker_version
                                && info.containers_count == was.containers_count
                                && info.images_count == was.images_count && info.networks_count
                                == was.networks_count && info.volumes_count == was.volumes_count
                        } else {
                            info == was
                        }
                    },
            decreases es.len() - i,
        {
            let ghost k = es[i as int].id@;
            proof {
                assert(m0.contains_key(k));
                assert(!(exists|j: int| 0 <= j < i && (#[trigger] es[j].id@) == k));
                assert(self@[k] == m0[k]);
            }
            let id = servers[i].id.clone();
            let res = self.disconnect_from_server(id.as_str());
            proof {
                assert(res is Ok);
            }
            results.push(
                ServerOperationResult {
                    server_id: id,
                    success: true,
                    message: "Desconectado com sucesso".to_owned(),
                },
            );
            proof {
                assert forall|k2: Seq<char>| m0.contains_key(k2) implies self@.contains_key(
                    k2,
                ) by {}
                assert(self@.dom() =~= m0.dom());
            }
            i = i + 1;
        }
        proof {
            assert forall|k2: Seq<char>| m0.contains_key(k2) implies exists|j: int|
                0 <= j < es.len() && (#[trigger] es[j].id@) == k2 by {}
        }
        results
    }

    /// Stores the refresh results for a server: its daemon version and the
    /// four resource counts, stamping the connection time. An unknown id is
    /// an error.
    pub fn update_server_info(
        &mut self,
        server_id: &str,
        docker_version: Option<String>,
        containers_count: usize,
        images_count: usize,
        networks_count: usize,
        volumes_count: usize,
    ) -> (r: Result<(), String>)
        ensures
            final(self).spec_active() == old(self).spec_active(),
            match r {
                Ok(()) => {
                    &&& old(self)@.contains_key(server_id@)
                    &&& final(self)@ =~= old(self)@.insert(server_id@, final(self)@[server_id@])
                    &&& final(self)@.contains_key(server_id@)
                    &&& ({
                        let info = final(self)@[server_id@];
                        let was = old(self)@[server_id@];
                        info.docker_version == docker_version && info.containers_count
                            == containers_count && info.images_count == images_count
                            && info.networks_count == networks_count && info.volumes_count
                            == volumes_count && info.last_connected is Some && info.id == was.id
                            && info.name == was.name && info.server_type == was.server_type
                            && info.description == was.description && info.is_active
                            == was.is_active && info.is_connected == was.is_connected
                    })
                },
                Err(_) => !old(self)@.contains_key(server_id@) && final(self)@ == old(self)@,
            },
    {
        proof {
            use_type_invariant(&*self);
        }
        match self.get_server(server_id) {
            Some(info) => {
                proof {
                    lemma_info_key(self.servers@, server_id@);
                }
                let updated = ServerInfo {
                    docker_version,
                    containers_count,
                    images_count,
                    networks_count,
                    volumes_count,
                    last_connected: Some(now_rfc3339()),
                    ..info
                };
                self.insert_info(updated);
                proof {
                    assert(updated.id@ == server_id@);
                }
                Ok(())
            },
            None => {
                let mut m = "Servidor '".to_owned();
                m.append(server_id);
                m.append("' nao encontrado");
                Err(m)
            },
        }
    }

    /// The servers currently marked active, in enumeration order.
    pub fn list_active_servers(&self) -> (r: Vec<ServerInfo>)
        ensures
            exists|es: Seq<ServerInfo>|
                #[trigger] enumerates(es, self@) && r@ == es.filter(
                    |s: ServerInfo| s.is_active,
                ),
    {
        let all = self.list_servers();
        let ghost es = all@;
        let r = filter_infos(all, FilterKind::Active);
        proof {
            assert(enumerates(es, self@));
        }
        r
    }

    /// The remote servers, in enumeration order.
    pub fn list_remote_servers(&self) -> (r: Vec<ServerInfo>)
        ensures
            exists|es: Seq<ServerInfo>|
                #[trigger] enumerates(es, self@) && r@ == es.filter(
                    |s: ServerInfo| s.server_type is Remote,
                ),
    {
        let all = self.list_servers();
        let ghost es = all@;
        let r = filter_infos(all, FilterKind::Remote);
        proof {
            assert(enumerates(es, self@));
        }
        r
    }

    /// The local servers, in enumeration order.
    pub fn list_local_servers(&self) -> (r: Vec<ServerInfo>)
        ensures
            exists|es: Seq<ServerInfo>|
                #[trigger] enumerates(es, self@) && r@ == es.filter(
                    |s: ServerInfo| s.server_type is Local,
                ),
    {
        let all = self.list_servers();
        let ghost es = all@;
        let r = filter_infos(all, FilterKind::Local);
        proof {
            assert(enumerates(es, self@));
        }
        r
    }

    /// Summary counts over the registry: how many servers of each kind, and
    /// the saturating sums of the per-server resource counts.
    pub fn get_statistics(&self) -> (r: RegistryStatistics)
        ensures
            exists|es: Seq<ServerInfo>|
                {
                    &&& #[trigger] enumerates(es, self@)
                    &&& r.total_servers == es.len()
                    &&& r.active_servers == es.filter(|s: ServerInfo| s.is_active).len()
                    &&& r.remote_servers == es.filter(
                        |s: ServerInfo| s.server_type is Remote,
                    ).len()
                    &&& r.local_servers == es.filter(|s: ServerInfo| s.server_type is Local).len()
                    &&& r.total_containers == spec_count_sum(es, CountField::Containers)
                    &&& r.total_images == spec_count_sum(es, CountField::Images)
                    &&& r.total_networks == spec_count_sum(es, CountField::Networks)
                    &&& r.total_volumes == spec_count_sum(es, CountField::Volumes)
                },
    {
        broadcast use vstd::seq_lib::group_filter_ensures;

        let all = self.list_servers();
        let ghost es = all@;
        let n = all.len();
        let mut active: usize = 0;
        let mut remote: usize = 0;
        let mut local: usize = 0;
        let mut containers: u64 = 0;
        let mut images: u64 = 0;
        let mut networks: u64 = 0;
        let mut volumes: u64 = 0;
        let mut i: usize = 0;
        proof {
            reveal(Seq::filter);
            assert(es.take(0) =~= Seq::<ServerInfo>::empty());
        }
        while i < n
            invariant
                n == es.len(),
                all@ == es,
                i <= n,
                active == es.take(i as int).filter(|s: ServerInfo| s.is_active).len(),
                remote == es.take(i as int).filter(|s: ServerInfo| s.server_type is Remote).len(),
                local == es.take(i as int).filter(|s: ServerInfo| s.server_type is Local).len(),
                active <= i && remote <= i && local <= i,
                containers == spec_count_sum(es.take(i as int), CountField::Containers),
                images == spec_count_sum(es.take(i as int), CountField::Images),
                networks == spec_count_sum(es.take(i as int), CountField::Networks),
                volumes == spec_count_sum(es.take(i as int), CountField::Volumes),
            decreases n - i,
        {
            proof {
                reveal(Seq::filter);
                assert(es.take(i as int + 1).drop_last() =~= es.take(i as int));
                assert(es.take(i as int + 1).last() == es[i as int]);
            }
            let s = &all[i];
            if s.is_active {
                active = active + 1;
            }
            match &s.server_type {
                ServerType::Remote(_) => {
                    remote = remote + 1;
                },
                ServerType::Local => {
                    local = local + 1;
                },
            }
            containers = sat_add_usize(containers, s.containers_count);
            images = sat_add_usize(images, s.images_count);
            networks = sat_add_usize(networks, s.networks_count);
            volumes = sat_add_usize(volumes, s.volumes_count);
            i = i + 1;
        }
        proof {
            assert(es.take(n as int) =~= es);
            assert(enumerates(es, self@));
        }
        RegistryStatistics {
            total_servers: n,
            active_servers: active,
            remote_servers: remote,
            local_servers: local,
            total_containers: containers,
            total_images: images,
            total_networks: networks,
            total_volumes: volumes,
        }
    }

    /// Drops every server and clears the selection; returns how many entries
    /// were dropped.
    pub fn clear_all_servers(&mut self) -> (r: usize)
        ensures
            final(self)@ == Map::<Seq<char>, ServerInfo>::empty(),
            final(self).spec_active() is None,
            r as nat == old(self)@.dom().len(),
    {
        proof {
            use_type_invariant(&*self);
            lemma_info_dom_len(self.servers@);
        }
        let n = self.servers.len();
        let mut es: Vec<ServerInfo> = Vec::new();
        core::mem::swap(&mut es, &mut self.servers);
        es.clear();
        self.servers = es;
        self.active_server = None;
        n
    }
}

/// Which of the three server filters applies.
enum FilterKind {
    Active,
    Remote,
    Local,
}

impl FilterKind {
    spec fn pred(self) -> spec_fn(ServerInfo) -> bool {
        match self {
            FilterKind::Active => |s: ServerInfo| s.is_active,
            FilterKind::Remote => |s: ServerInfo| s.server_type is Remote,
            FilterKind::Local => |s: ServerInfo| s.server_type is Local,
        }
    }
}

fn filter_infos(all: Vec<ServerInfo>, kind: FilterKind) -> (r: Vec<ServerInfo>)
    ensures
        r@ == all@.filter(kind.pred()),
{
    let ghost orig = all@;
    let ghost pred = kind.pred();
    let mut rest = all;
    let mut out: Vec<ServerInfo> = Vec::new();
    let ghost mut done: int = 0;
    proof {
        reveal(Seq::filter);
        assert(orig.take(0) =~= Seq::<ServerInfo>::empty());
    }
    while rest.len() > 0
        invariant
            0 <= done <= orig.len(),
            rest@ =~= orig.skip(done),
            out@ == orig.take(done).filter(pred),
            pred == kind.pred(),
        decreases rest@.len(),
    {
        let s = rest.remove(0);
        proof {
            reveal(Seq::filter);
            assert(s == orig[done]);
            assert(rest@ =~= orig.skip(done + 1));
            assert(orig.take(done + 1).drop_last() =~= orig.take(done));
            assert(orig.take(done + 1).last() == orig[done]);
        }
        let keep = match kind {
            FilterKind::Active => s.is_active,
            FilterKind::Remote => match &s.server_type {
                ServerType::Remote(_) => true,
                ServerType::Local => false,
            },
            FilterKind::Local => match &s.server_type {
                ServerType::Local => true,
                ServerType::Remote(_) => false,
            },
        };
        if keep {
            out.push(s);
            proof {
                assert(pred(orig[done]));
                assert(out@ =~= orig.take(done + 1).filter(pred));
            }
        } else {
            proof {
                assert(!pred(orig[done]));
                assert(out@ =~= orig.take(done + 1).filter(pred));
            }
        }
        proof {
            done = done + 1;
        }
    }
    proof {
        assert(orig.take(orig.len() as int) =~= orig);
    }
    out
}

/// Summary counts over the registry.
#[derive(Debug, Clone, Copy, PartialEq, Eq, Structural)]
pub struct RegistryStatistics {
    pub total_servers: usize,
    pub active_servers: usize,
    pub remote_servers: usize,
    pub local_servers: usize,
    pub total_containers: u64,
    pub total_images: u64,
    pub total_networks: u64,
    pub total_volumes: u64,
}

/// Which per-server resource count a sum ranges over.
pub enum CountField {
    Containers,
    Images,
    Networks,
    Volumes,
}

/// The saturating sum of one resource count over a server enumeration.
pub open spec fn spec_count_sum(es: Seq<ServerInfo>, field: CountField) -> u64
    decreases es.len(),
{
    if es.len() == 0 {
        0
    } else {
        let v: u64 = match field {
            CountField::Containers => es.last().containers_count as u64,
            CountField::Images => es.last().images_count as u64,
            CountField::Networks => es.last().networks_count as u64,
            CountField::Volumes => es.last().volumes_count as u64,
        };
        if spec_count_sum(es.drop_last(), field) + v > u64::MAX {
            u64::MAX
        } else {
            (spec_count_sum(es.drop_last(), field) + v) as u64
        }
    }
}

fn sat_add_usize(a: u64, b: usize) -> (r: u64)
    ensures
        r == if a + b as u64 > u64::MAX {
            u64::MAX
        } else {
            (a + b as u64) as u64
        },
{
    let bb = b as u64;
    if a <= u64::MAX - bb {
        a + bb
    } else {
        u64::MAX
    }
}

proof fn lemma_info_key(es: Seq<ServerInfo>, k: Seq<char>)
    requires
        info_map(es).contains_key(k),
    ensures
        info_map(es)[k].id@ == k,
    decreases es.len(),
{
    if es.len() > 0 {
        if es.last().id@ != k {
            lemma_info_key(es.drop_last(), k);
        }
    }
}

proof fn lemma_info_dom(es: Seq<ServerInfo>, k: Seq<char>)
    requires
        info_map(es).contains_key(k),
    ensures
        exists|i: int| 0 <= i < es.len() && (#[trigger] es[i].id@) == k,
    decreases es.len(),
{
    if es.len() > 0 {
        if es.last().id@ == k {
            assert(es[es.len() - 1].id@ == k);
        } else {
            lemma_info_dom(es.drop_last(), k);
            let i = choose|i: int| 0 <= i < es.drop_last().len() && (#[trigger] es.drop_last()[i].id@) == k;
            assert(es[i].id@ == k);
        }
    }
}

proof fn lemma_info_dom_len(es: Seq<ServerInfo>)
    requires
        unique_ids(es),
    ensures
        info_map(es).dom().len() == es.len(),
        info_map(es).dom().finite(),
    decreases es.len(),
{
    if es.len() > 0 {
        lemma_info_dom_len(es.drop_last());
        lemma_info_absent(es.drop_last(), es.last().id@);
        assert(info_map(es).dom() =~= info_map(es.drop_last()).dom().insert(es.last().id@));
    }
}

} // verus!
