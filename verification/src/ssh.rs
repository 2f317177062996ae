//! SSH-side plain types: connection parameters, command results, error
//! classification, and the global SSH configuration with its named servers.

use vstd::prelude::*;
use vstd::string::StrSliceExecFns;
use vstd::string::StringExecFns;

use crate::servers::SshServerConfig;
use crate::servers::spec_validate_ssh;
use crate::strutil::str_eq;

verus! {

/// Raw connection parameters for one SSH session.
#[derive(Debug)]
pub struct SshConnection {
    pub host: String,
    pub port: u16,
    pub username: String,
    pub password: String,
    pub private_key: Option<String>,
    pub passphrase: Option<String>,
}

impl Default for SshConnection {
    /// An empty connection on the standard SSH port.
    fn default() -> (r: Self)
        ensures
            r.host@ == Seq::<char>::empty(),
            r.port == 22,
            r.username@ == Seq::<char>::empty(),
            r.password@ == Seq::<char>::empty(),
            r.private_key is None,
            r.passphrase is None,
    {
        SshConnection {
            host: String::new(),
            port: 22,
            username: String::new(),
            password: String::new(),
            private_key: None,
            passphrase: None,
        }
    }
}

/// What one remotely executed command returned.
#[derive(Debug)]
pub struct CommandResult {
    pub command: String,
    pub stdout: String,
    pub stderr: String,
    pub exit_code: i32,
    pub success: bool,
}

/// Basic host facts reported by a remote server.
#[derive(Debug)]
pub struct SshServerInfo {
    pub hostname: String,
    pub uptime: String,
    pub memory_usage: String,
    pub cpu_usage: String,
    pub disk_usage: String,
}

/// Classified SSH failure.
#[derive(Debug)]
pub enum SshError {
    ConnectionFailed(String),
    AuthenticationFailed(String),
    CommandExecutionFailed(String),
    FileTransferFailed(String),
    NetworkError(String),
    InvalidCredentials(String),
    Timeout(String),
}

impl SshError {
    /// Display form of the error.
    pub fn message(&self) -> (r: String)
        ensures
            r@ == match self {
                SshError::ConnectionFailed(m) => "Connection failed: "@ + m@,
                SshError::AuthenticationFailed(m) => "Authentication failed: "@ + m@,
                SshError::CommandExecutionFailed(m) => "Command execution failed: "@ + m@,
                SshError::FileTransferFailed(m) => "File transfer failed: "@ + m@,
                SshError::NetworkError(m) => "Network error: "@ + m@,
                SshError::InvalidCredentials(m) => "Invalid credentials: "@ + m@,
                SshError::Timeout(m) => "Timeout: "@ + m@,
            },
    {
        let (prefix, m): (&str, &String) = match self {
            SshError::ConnectionFailed(m) => ("Connection failed: ", m),
            SshError::AuthenticationFailed(m) => ("Authentication failed: ", m),
            SshError::CommandExecutionFailed(m) => ("Command execution failed: ", m),
            SshError::FileTransferFailed(m) => ("File transfer failed: ", m),
            SshError::NetworkError(m) => ("Network error: ", m),
            SshError::InvalidCredentials(m) => ("Invalid credentials: ", m),
            SshError::Timeout(m) => ("Timeout: ", m),
        };
        let mut out = prefix.to_owned();
        out.append(m.as_str());
        out
    }
}

/// State of one SSH connection.
#[derive(Debug, Clone)]
pub enum ConnectionStatus {
    Disconnected,
    Connecting,
    Connected,
    Error(String),
}

/// First index of a server with this name, or the length when absent.
pub open spec fn first_name_idx(ss: Seq<SshServerConfig>, name: Seq<char>) -> int
    decreases ss.len(),
{
    if ss.len() == 0 {
        0
    } else if ss[0].name@ == name {
        0
    } else {
        1 + first_name_idx(ss.drop_first(), name)
    }
}

proof fn lemma_first_name_idx_unique(ss: Seq<SshServerConfig>, name: Seq<char>, i: int)
    requires
        0 <= i <= ss.len(),
        forall|j: int| 0 <= j < i ==> (#[trigger] ss[j].name@) != name,
        i < ss.len() ==> ss[i].name@ == name,
    ensures
        first_name_idx(ss, name) == i,
    decreases ss.len(),
{
    if ss.len() > 0 && ss[0].name@ != name {
        assert(i > 0);
        assert forall|j: int| 0 <= j < i - 1 implies (#[trigger] ss.drop_first()[j].name@)
            != name by {
            assert(ss.drop_first()[j] == ss[j + 1]);
        }
        if i - 1 < ss.drop_first().len() {
            assert(ss.drop_first()[i - 1] == ss[i]);
        }
        lemma_first_name_idx_unique(ss.drop_first(), name, i - 1);
    }
}

/// Global SSH configuration: the named servers, the default selection, and
/// timeouts in seconds.
#[derive(Debug)]
pub struct SshConfig {
    pub servers: Vec<SshServerConfig>,
    pub default_server: Option<String>,
    pub connection_timeout: u64,
    pub command_timeout: u64,
}

impl Default for SshConfig {
    /// No servers, no default, 30 s to connect, 60 s per command.
    fn default() -> (r: Self)
        ensures
            r.servers@.len() == 0,
            r.default_server is None,
            r.connection_timeout == 30,
            r.command_timeout == 60,
    {
        SshConfig {
            servers: Vec::new(),
            default_server: None,
            connection_timeout: 30,
            command_timeout: 60,
        }
    }
}

impl SshConfig {
    fn find_by_name(&self, name: &str) -> (r: Option<usize>)
        ensures
            match r {
                Some(i) => i < self.servers@.len() && self.servers@[i as int].name@ == name@ && i
                    == first_name_idx(self.servers@, name@),
                None => forall|j: int|
                    0 <= j < self.servers@.len() ==> (#[trigger] self.servers@[j].name@) != name@,
            },
    {
        let n = self.servers.len();
        let mut i: usize = 0;
        while i < n
            invariant
                n == self.servers@.len(),
                i <= n,
                forall|j: int| 0 <= j < i ==> (#[trigger] self.servers@[j].name@) != name@,
            decreases n - i,
        {
            if str_eq(self.servers[i].name.as_str(), name) {
                proof {
                    lemma_first_name_idx_unique(self.servers@, name@, i as int);
                }
                return Some(i);
            }
            i = i + 1;
        }
        None
    }

    /// Adds a server after validating it; a server whose name is already
    /// taken is refused.
    pub fn add_server(&mut self, server: SshServerConfig) -> (r: Result<(), String>)
        ensures
            match r {
                Ok(()) => {
                    &&& spec_validate_ssh(server) is None
                    &&& (forall|j: int|
                        0 <= j < old(self).servers@.len() ==> (
                        #[trigger] old(self).servers@[j].name@) != server.name@)
                    &&& final(self).servers@ == old(self).servers@.push(server)
                    &&& final(self).default_server == old(self).default_server
                },
                Err(m) => {
                    &&& *final(self) == *old(self)
                    &&& (match spec_validate_ssh(server) {
                        Some(v) => m@ == v,
                        None => m@ == "Servidor com nome '"@ + server.name@ + "' ja existe"@
                            && exists|j: int|
                            0 <= j < old(self).servers@.len() && (
                            #[trigger] old(self).servers@[j].name@) == server.name@,
                    })
                },
            },
    {
        match server.validate() {
            Ok(()) => {},
            Err(e) => {
                return Err(e);
            },
        }
        match self.find_by_name(server.name.as_str()) {
            Some(i) => {
                let mut m = "Servidor com nome '".to_owned();
                m.append(server.name.as_str());
                m.append("' ja existe");
                Err(m)
            },
            None => {
                self.servers.push(server);
                Ok(())
            },
        }
    }

    /// Removes every server with this name; returns whether any was there.
    /// When the default pointed at it, the default is cleared.
    pub fn remove_server(&mut self, name: &str) -> (r: bool)
        ensures
            final(self).servers@ == old(self).servers@.filter(
                |s: SshServerConfig| s.name@ != name@,
            ),
            r == exists|j: int|
                0 <= j < old(self).servers@.len() && (#[trigger] old(self).servers@[j].name@)
                    == name@,
            final(self).default_server == if (match old(self).default_server {
                Some(d) => d@ == name@,
                None => false,
            }) {
                None::<String>
            } else {
                old(self).default_server
            },
    {
        let ghost orig = self.servers@;
        let ghost pred = |s: SshServerConfig| s.name@ != name@;
        let mut rest: Vec<SshServerConfig> = Vec::new();
        core::mem::swap(&mut rest, &mut self.servers);
        let mut out: Vec<SshServerConfig> = Vec::new();
        let mut removed = false;
        let ghost mut done: int = 0;
        proof {
            reveal(Seq::filter);
            assert(orig.take(0) =~= Seq::<SshServerConfig>::empty());
        }
        while rest.len() > 0
            invariant
                0 <= done <= orig.len(),
                rest@ =~= orig.skip(done),
                out@ == orig.take(done).filter(pred),
                pred == (|s: SshServerConfig| s.name@ != name@),
                removed == exists|j: int|
                    0 <= j < done && (#[trigger] orig[j].name@) == name@,
            decreases rest@.len(),
        {
            let s = rest.remove(0);
            proof {
                reveal(Seq::filter);
                assert(s == orig[done]);
                assert(rest@ =~= orig.skip(done + 1));
                assert(orig.take(done + 1).drop_last() =~= orig.take(done));
                assert(orig.take(done + 1).last() == orig[done]);
            }
            if str_eq(s.name.as_str(), name) {
                removed = true;
                proof {
                    assert(orig[done].name@ == name@);
                    assert(out@ =~= orig.take(done + 1).filter(pred));
                }
            } else {
                out.push(s);
                proof {
                    assert(out@ =~= orig.take(done + 1).filter(pred));
                }
            }
            proof {
                done = done + 1;
            }
        }
        proof {
            assert(orig.take(orig.len() as int) =~= orig);
        }
        self.servers = out;
        let clear = match &self.default_server {
            Some(d) => str_eq(d.as_str(), name),
            None => false,
        };
        if clear {
            self.default_server = None;
        }
        removed
    }

    /// Looks a server up by name (the first match).
    pub fn get_server(&self, name: &str) -> (r: Option<SshServerConfig>)
        ensures
            match r {
                Some(c) => first_name_idx(self.servers@, name@) < self.servers@.len() && c
                    == self.servers@[first_name_idx(self.servers@, name@)],
                None => forall|j: int|
                    0 <= j < self.servers@.len() ==> (#[trigger] self.servers@[j].name@) != name@,
            },
    {
        match self.find_by_name(name) {
            Some(i) => Some(self.servers[i].clone()),
            None => None,
        }
    }

    /// The default server: the named default when set, else the first entry.
    pub fn get_default_server(&self) -> (r: Option<SshServerConfig>)
        ensures
            match self.default_server {
                Some(d) => match r {
                    Some(c) => first_name_idx(self.servers@, d@) < self.servers@.len() && c
                        == self.servers@[first_name_idx(self.servers@, d@)],
                    None => forall|j: int|
                        0 <= j < self.servers@.len() ==> (#[trigger] self.servers@[j].name@)
                            != d@,
                },
                None => match r {
                    Some(c) => self.servers@.len() > 0 && c == self.servers@[0],
                    None => self.servers@.len() == 0,
                },
            },
    {
        match &self.default_server {
            Some(d) => {
                let name = d.clone();
                self.get_server(name.as_str())
            },
            None => {
                if self.servers.len() > 0 {
                    Some(self.servers[0].clone())
                } else {
                    None
                }
            },
        }
    }

    /// Makes a known server the default; an unknown name is refused.
    pub fn set_default_server(&mut self, name: &str) -> (r: Result<(), String>)
        ensures
            final(self).servers@ == old(self).servers@,
            match r {
                Ok(()) => (exists|j: int|
                    0 <= j < old(self).servers@.len() && (#[trigger] old(self).servers@[j].name@)
                        == name@) && (match final(self).default_server {
                    Some(d) => d@ == name@,
                    None => false,
                }),
                Err(m) => (forall|j: int|
                    0 <= j < old(self).servers@.len() ==> (#[trigger] old(self).servers@[j].name@)
                        != name@) && final(self).default_server == old(self).default_server
                    && m@ == "Servidor '"@ + name@ + "' nao encontrado"@,
            },
    {
        match self.find_by_name(name) {
            Some(i) => {
                self.default_server = Some(name.to_owned());
                Ok(())
            },
            None => {
                let mut m = "Servidor '".to_owned();
                m.append(name);
                m.append("' nao encontrado");
                Err(m)
            },
        }
    }
}

} // verus!
