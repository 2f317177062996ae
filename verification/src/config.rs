//! Application configuration: UI preferences and the saved server list with
//! the active selection. Reading and writing the configuration file stay
//! outside; every operation here is on the value.

use vstd::prelude::*;
use vstd::string::StrSliceExecFns;
use vstd::string::StringExecFns;

use crate::servers::ServerInfo;
use crate::servers::ServerType;
use crate::ssh::SshConfig;
use crate::strutil::str_eq;

verus! {

/// User-interface preferences.
#[derive(Debug)]
pub struct UiConfig {
    pub theme: String,
    pub language: String,
    pub auto_refresh_interval: u64,
    pub show_system_containers: bool,
    pub default_log_lines: usize,
}

impl Default for UiConfig {
    /// Dark theme, Brazilian Portuguese, refresh every 5 s, 50 log lines.
    fn default() -> (r: Self)
        ensures
            r.theme@ == "dark"@,
            r.language@ == "pt_BR"@,
            r.auto_refresh_interval == 5,
            r.show_system_containers == false,
            r.default_log_lines == 50,
    {
        UiConfig {
            theme: "dark".to_owned(),
            language: "pt_BR".to_owned(),
            auto_refresh_interval: 5,
            show_system_containers: false,
            default_log_lines: 50,
        }
    }
}

/// The whole persisted application configuration.
#[derive(Debug)]
pub struct AppConfig {
    pub ssh_config: SshConfig,
    pub servers: Vec<ServerInfo>,
    pub active_server_id: Option<String>,
    pub ui_config: UiConfig,
    pub config_version: String,
}

impl Default for AppConfig {
    /// No servers, no active selection, default UI settings, version 1.0.
    fn default() -> (r: Self)
        ensures
            r.servers@.len() == 0,
            r.active_server_id is None,
            r.config_version@ == "1.0"@,
            r.ui_config.theme@ == "dark"@,
    {
        AppConfig {
            ssh_config: SshConfig::default(),
            servers: Vec::new(),
            active_server_id: None,
            ui_config: UiConfig::default(),
            config_version: "1.0".to_owned(),
        }
    }
}

/// Summary counts over the configuration.
#[derive(Debug)]
pub struct ConfigStats {
    pub total_servers: usize,
    pub remote_servers: usize,
    pub local_servers: usize,
    pub has_active_server: bool,
    pub config_version: String,
}

/// Whether a server entry is remote.
pub open spec fn spec_is_remote(s: ServerInfo) -> bool {
    s.server_type is Remote
}

/// Holder of the configuration value; the caller persists it after each
/// mutation.
#[derive(Debug)]
pub struct ConfigManager {
    config: AppConfig,
}

impl ConfigManager {
    /// Wraps a loaded (or default) configuration.
    pub fn from_config(config: AppConfig) -> (r: Self)
        ensures
            r.spec_servers() == config.servers@,
            r.spec_active() == (match config.active_server_id {
                Some(a) => Some(a@),
                None => None::<Seq<char>>,
            }),
    {
        ConfigManager { config }
    }

    /// A manager around the default configuration.
    pub fn new() -> (r: Self)
        ensures
            r.spec_servers().len() == 0,
            r.spec_active() is None,
    {
        ConfigManager { config: AppConfig::default() }
    }

    /// The stored server entries.
    pub closed spec fn spec_servers(&self) -> Seq<ServerInfo> {
        self.config.servers@
    }

    /// The active server id, as an abstract value.
    pub closed spec fn spec_active(&self) -> Option<Seq<char>> {
        match self.config.active_server_id {
            Some(a) => Some(a@),
            None => None,
        }
    }

    /// Borrow of the configuration, for saving or reading other settings.
    pub fn get_config(&self) -> (r: &AppConfig)
        ensures
            r.servers@ == self.spec_servers(),
    {
        &self.config
    }

    /// Sets (or clears) the active server id.
    pub fn set_active_server(&mut self, server_id: Option<String>)
        ensures
            final(self).spec_servers() == old(self).spec_servers(),
            final(self).spec_active() == (match server_id {
                Some(a) => Some(a@),
                None => None::<Seq<char>>,
            }),
    {
        self.config.active_server_id = server_id;
    }

    /// The active server id.
    pub fn get_active_server(&self) -> (r: Option<&String>)
        ensures
            match r {
                Some(a) => self.spec_active() == Some(a@),
                None => self.spec_active() is None,
            },
    {
        self.config.active_server_id.as_ref()
    }

    /// Adds a server, replacing any entry with the same id; the new entry
    /// goes to the end.
    pub fn add_server(&mut self, server: ServerInfo)
        ensures
            final(self).spec_servers() == old(self).spec_servers().filter(
                |s: ServerInfo| s.id@ != server.id@,
            ).push(server),
            final(self).spec_active() == old(self).spec_active(),
    {
        let mut taken: Vec<ServerInfo> = Vec::new();
        core::mem::swap(&mut taken, &mut self.config.servers);
        let mut kept = retain_other_ids(taken, server.id.as_str());
        kept.push(server);
        self.config.servers = kept;
    }

    /// Removes the entries with this id; returns whether any was there. When
    /// the removed server was active, the selection is cleared.
    pub fn remove_server(&mut self, server_id: &str) -> (r: bool)
        ensures
            final(self).spec_servers() == old(self).spec_servers().filter(
                |s: ServerInfo| s.id@ != server_id@,
            ),
            r == exists|j: int|
                0 <= j < old(self).spec_servers().len() && (#[trigger] old(
                    self,
                ).spec_servers()[j].id@) == server_id@,
            final(self).spec_active() == if old(self).spec_active() == Some(server_id@) {
                None::<Seq<char>>
            } else {
                old(self).spec_active()
            },
    {
        broadcast use vstd::seq_lib::group_filter_ensures;

        let had = self.find_index(server_id).is_some();
        let mut taken: Vec<ServerInfo> = Vec::new();
        core::mem::swap(&mut taken, &mut self.config.servers);
        let kept = retain_other_ids(taken, server_id);
        self.config.servers = kept;
        let clear = match &self.config.active_server_id {
            Some(a) => str_eq(a.as_str(), server_id),
            None => false,
        };
        if clear {
            self.config.active_server_id = None;
        }
        had
    }

    fn find_index(&self, server_id: &str) -> (r: Option<usize>)
        ensures
            match r {
                Some(i) => i < self.spec_servers().len() && self.spec_servers()[i as int].id@
                    == server_id@,
                None => forall|j: int|
                    0 <= j < self.spec_servers().len() ==> (#[trigger] self.spec_servers()[j].id@)
                        != server_id@,
            },
    {
        let n = self.config.servers.len();
        let mut i: usize = 0;
        while i < n
            invariant
                n == self.spec_servers().len(),
                self.spec_servers() == self.config.servers@,
                i <= n,
                forall|j: int| 0 <= j < i ==> (#[trigger] self.spec_servers()[j].id@) != server_id@,
            decreases n - i,
        {
            if str_eq(self.config.servers[i].id.as_str(), server_id) {
                return Some(i);
            }
            i = i + 1;
        }
        None
    }

    /// All stored entries, in order.
    pub fn list_servers(&self) -> (r: &Vec<ServerInfo>)
        ensures
            r@ == self.spec_servers(),
    {
        &self.config.servers
    }

    /// The entry with this id, if any.
    pub fn get_server(&self, server_id: &str) -> (r: Option<&ServerInfo>)
        ensures
            match r {
                Some(s) => exists|i: int|
                    0 <= i < self.spec_servers().len() && (#[trigger] self.spec_servers()[i]) == *s
                        && s.id@ == server_id@,
                None => forall|j: int|
                    0 <= j < self.spec_servers().len() ==> (#[trigger] self.spec_servers()[j].id@)
                        != server_id@,
            },
    {
        match self.find_index(server_id) {
            Some(i) => {
                let s = &self.config.servers[i];
                proof {
                    assert(self.spec_servers()[i as int] == *s);
                }
                Some(s)
            },
            None => None,
        }
    }

    /// Replaces the first entry that has the same id as `server`; entries
    /// with other ids, and the list length, are unchanged. An id that is not
    /// present leaves the list as it was.
    pub fn update_server(&mut self, server: ServerInfo)
        ensures
            final(self).spec_active() == old(self).spec_active(),
            match spec_first_with_id(old(self).spec_servers(), server.id@) {
                Some(i) => final(self).spec_servers() == old(self).spec_servers().update(
                    i,
                    server,
                ),
                None => final(self).spec_servers() == old(self).spec_servers(),
            },
    {
        match self.find_index_first(server.id.as_str()) {
            Some(i) => {
                let _ = self.config.servers.remove(i);
                self.config.servers.insert(i, server);
                proof {
                    assert(final(self).spec_servers() =~= old(self).spec_servers().update(
                        i as int,
                        server,
                    ));
                }
            },
            None => {},
        }
    }

    fn find_index_first(&self, server_id: &str) -> (r: Option<usize>)
        ensures
            match r {
                Some(i) => i < self.spec_servers().len() && spec_first_with_id(
                    self.spec_servers(),
                    server_id@,
                ) == Some(i as int),
                None => spec_first_with_id(self.spec_servers(), server_id@) is None,
            },
    {
        let n = self.config.servers.len();
        let mut i: usize = 0;
        while i < n
            invariant
                n == self.spec_servers().len(),
                self.spec_servers() == self.config.servers@,
                i <= n,
                forall|j: int| 0 <= j < i ==> (#[trigger] self.spec_servers()[j].id@) != server_id@,
            decreases n - i,
        {
            if str_eq(self.config.servers[i].id.as_str(), server_id) {
                proof {
                    lemma_first_with_id_some(self.spec_servers(), server_id@, i as int);
                }
                return Some(i);
            }
            i = i + 1;
        }
        proof {
            lemma_first_with_id_none(self.spec_servers(), server_id@);
        }
        None
    }

    /// Hands out a copy of the server list, for serialization.
    pub fn export_servers(&self) -> (r: Vec<ServerInfo>)
        ensures
            r@ == self.spec_servers(),
    {
        let n = self.config.servers.len();
        let mut out: Vec<ServerInfo> = Vec::new();
        let mut i: usize = 0;
        while i < n
            invariant
                n == self.spec_servers().len(),
                self.spec_servers() == self.config.servers@,
                i <= n,
                out@ =~= self.spec_servers().take(i as int),
            decreases n - i,
        {
            out.push(self.config.servers[i].clone());
            proof {
                assert(out@ =~= self.spec_servers().take(i as int + 1));
            }
            i = i + 1;
        }
        proof {
            assert(out@ =~= self.spec_servers());
        }
        out
    }

    /// Imports entries, skipping ids that are already stored; returns how
    /// many were appended.
    pub fn import_servers(&mut self, imported: Vec<ServerInfo>) -> (r: usize)
        ensures
            final(self).spec_servers() == spec_append_new(old(self).spec_servers(), imported@),
            r as nat == spec_append_new(old(self).spec_servers(), imported@).len() - old(
                self,
            ).spec_servers().len(),
            final(self).spec_active() == old(self).spec_active(),
    {
        let ghost orig = self.spec_servers();
        let ghost iv = imported@;
        let mut imported = imported;
        let total = imported.len();
        let mut added: usize = 0;
        let ghost mut done: int = 0;
        proof {
            assert(iv.len() == total);
            assert(iv.take(0) =~= Seq::<ServerInfo>::empty());
        }
        while imported.len() > 0
            invariant
                0 <= done <= iv.len(),
                iv.len() <= usize::MAX,
                imported@ =~= iv.skip(done),
                self.spec_servers() == spec_append_new(orig, iv.take(done)),
                added as nat == spec_append_new(orig, iv.take(done)).len() - orig.len(),
                self.spec_active() == old(self).spec_active(),
            decreases imported@.len(),
        {
            let x = imported.remove(0);
            proof {
                assert(x == iv[done]);
                assert(imported@ =~= iv.skip(done + 1));
                assert(iv.take(done + 1).drop_last() =~= iv.take(done));
                assert(iv.take(done + 1).last() == iv[done]);
                lemma_append_new_len(orig, iv.take(done));
            }
            match self.find_index(x.id.as_str()) {
                Some(_) => {
                    proof {
                        let cur = spec_append_new(orig, iv.take(done));
                        let k = choose|k: int|
                            0 <= k < cur.len() && (#[trigger] cur[k].id@) == x.id@;
                    }
                },
                None => {
                    self.config.servers.push(x);
                    added = added + 1;
                },
            }
            proof {
                done = done + 1;
            }
        }
        proof {
            assert(iv.take(iv.len() as int) =~= iv);
        }
        added
    }

    /// Drops every server and clears the active selection; returns how many
    /// entries were dropped.
    pub fn clear_servers(&mut self) -> (r: usize)
        ensures
            final(self).spec_servers().len() == 0,
            final(self).spec_active() is None,
            r == old(self).spec_servers().len(),
    {
        let n = self.config.servers.len();
        let mut taken: Vec<ServerInfo> = Vec::new();
        core::mem::swap(&mut taken, &mut self.config.servers);
        taken.clear();
        self.config.servers = taken;
        self.config.active_server_id = None;
        n
    }

    /// Replaces the UI settings.
    pub fn update_ui_config(&mut self, ui_config: UiConfig)
        ensures
            final(self).spec_servers() == old(self).spec_servers(),
            final(self).spec_active() == old(self).spec_active(),
            final(self).spec_ui_config() == ui_config,
    {
        self.config.ui_config = ui_config;
    }

    /// The stored UI settings, as an abstract value.
    pub closed spec fn spec_ui_config(&self) -> UiConfig {
        self.config.ui_config
    }

    /// Summary counts over the stored servers.
    pub fn get_stats(&self) -> (r: ConfigStats)
        ensures
            r.total_servers == self.spec_servers().len(),
            r.remote_servers == self.spec_servers().filter(
                |s: ServerInfo| spec_is_remote(s),
            ).len(),
            r.local_servers == self.spec_servers().filter(
                |s: ServerInfo| !spec_is_remote(s),
            ).len(),
            r.has_active_server == (self.spec_active() is Some),
            r.config_version@ == self.config_version_view(),
    {
        let ghost remote_pred = |s: ServerInfo| spec_is_remote(s);
        let ghost local_pred = |s: ServerInfo| !spec_is_remote(s);
        broadcast use vstd::seq_lib::group_filter_ensures;

        let n = self.config.servers.len();
        let mut remote: usize = 0;
        let mut local: usize = 0;
        let mut i: usize = 0;
        proof {
            reveal(Seq::filter);
            assert(self.spec_servers().take(0) =~= Seq::<ServerInfo>::empty());
        }
        while i < n
            invariant
                n == self.spec_servers().len(),
                self.spec_servers() == self.config.servers@,
                i <= n,
                remote == self.spec_servers().take(i as int).filter(remote_pred).len(),
                local == self.spec_servers().take(i as int).filter(local_pred).len(),
                remote + local == i,
                remote_pred == (|s: ServerInfo| spec_is_remote(s)),
                local_pred == (|s: ServerInfo| !spec_is_remote(s)),
            decreases n - i,
        {
            proof {
                reveal(Seq::filter);
                assert(self.spec_servers().take(i as int + 1).drop_last()
                    =~= self.spec_servers().take(i as int));
                assert(self.spec_servers().take(i as int + 1).last()
                    == self.spec_servers()[i as int]);
            }
            let is_remote = match &self.config.servers[i].server_type {
                ServerType::Remote(_) => true,
                ServerType::Local => false,
            };
            if is_remote {
                remote = remote + 1;
            } else {
                local = local + 1;
            }
            i = i + 1;
        }
        proof {
            assert(self.spec_servers().take(n as int) =~= self.spec_servers());
        }
        ConfigStats {
            total_servers: n,
            remote_servers: remote,
            local_servers: local,
            has_active_server: self.config.active_server_id.is_some(),
            config_version: self.config.config_version.clone(),
        }
    }

    /// The configuration version string.
    pub closed spec fn config_version_view(&self) -> Seq<char> {
        self.config.config_version@
    }
}

/// The list after appending, in order, the imported entries whose id is not
/// yet present.
pub open spec fn spec_append_new(cur: Seq<ServerInfo>, imported: Seq<ServerInfo>) -> Seq<
    ServerInfo,
>
    decreases imported.len(),
{
    if imported.len() == 0 {
        cur
    } else {
        let c2 = spec_append_new(cur, imported.drop_last());
        let x = imported.last();
        if exists|k: int| 0 <= k < c2.len() && (#[trigger] c2[k].id@) == x.id@ {
            c2
        } else {
            c2.push(x)
        }
    }
}

proof fn lemma_append_new_len(cur: Seq<ServerInfo>, imported: Seq<ServerInfo>)
    ensures
        spec_append_new(cur, imported).len() >= cur.len(),
        spec_append_new(cur, imported).len() <= cur.len() + imported.len(),
    decreases imported.len(),
{
    if imported.len() > 0 {
        lemma_append_new_len(cur, imported.drop_last());
    }
}

/// First index of an entry with this id, if any.
pub open spec fn spec_first_with_id(ss: Seq<ServerInfo>, id: Seq<char>) -> Option<int>
    decreases ss.len(),
{
    if ss.len() == 0 {
        None
    } else if ss[0].id@ == id {
        Some(0int)
    } else {
        match spec_first_with_id(ss.drop_first(), id) {
            Some(i) => Some(i + 1),
            None => None,
        }
    }
}

proof fn lemma_first_with_id_some(ss: Seq<ServerInfo>, id: Seq<char>, i: int)
    requires
        0 <= i < ss.len(),
        ss[i].id@ == id,
        forall|j: int| 0 <= j < i ==> (#[trigger] ss[j].id@) != id,
    ensures
        spec_first_with_id(ss, id) == Some(i),
    decreases ss.len(),
{
    if ss[0].id@ != id {
        assert(i > 0);
        assert forall|j: int| 0 <= j < i - 1 implies (#[trigger] ss.drop_first()[j].id@) != id by {
            assert(ss.drop_first()[j] == ss[j + 1]);
        }
        assert(ss.drop_first()[i - 1] == ss[i]);
        lemma_first_with_id_some(ss.drop_first(), id, i - 1);
    }
}

proof fn lemma_first_with_id_none(ss: Seq<ServerInfo>, id: Seq<char>)
    requires
        forall|j: int| 0 <= j < ss.len() ==> (#[trigger] ss[j].id@) != id,
    ensures
        spec_first_with_id(ss, id) is None,
    decreases ss.len(),
{
    if ss.len() > 0 {
        assert forall|j: int| 0 <= j < ss.drop_first().len() implies (
        #[trigger] ss.drop_first()[j].id@) != id by {
            assert(ss.drop_first()[j] == ss[j + 1]);
        }
        lemma_first_with_id_none(ss.drop_first(), id);
    }
}

fn retain_other_ids(servers: Vec<ServerInfo>, id: &str) -> (r: Vec<ServerInfo>)
    ensures
        r@ == servers@.filter(|s: ServerInfo| s.id@ != id@),
{
    let ghost orig = servers@;
    let ghost pred = |s: ServerInfo| s.id@ != id@;
    let mut rest = servers;
    let mut out: Vec<ServerInfo> = Vec::new();
    let ghost mut done: int = 0;
    proof {
        reveal(Seq::filter);
        assert(orig.take(0) =~= Seq::<ServerInfo>::empty());
    }
    while rest.len() > 0
        invariant
            0 <= done <= orig.len(),
            rest@ =~= orig.skip(done),
            out@ == orig.take(done).filter(pred),
            pred == (|s: ServerInfo| s.id@ != id@),
        decreases rest@.len(),
    {
        let s = rest.remove(0);
        proof {
            reveal(Seq::filter);
            assert(s == orig[done]);
            assert(rest@ =~= orig.skip(done + 1));
            assert(orig.take(done + 1).drop_last() =~= orig.take(done));
            assert(orig.take(done + 1).last() == orig[done]);
        }
        if str_eq(s.id.as_str(), id) {
            proof {
                assert(out@ =~= orig.take(done + 1).filter(pred));
            }
        } else {
            out.push(s);
            proof {
                assert(out@ =~= orig.take(done + 1).filter(pred));
            }
        }
        proof {
            done = done + 1;
        }
    }
    proof {
        assert(orig.take(orig.len() as int) =~= orig);
    }
    out
}

} // verus!
