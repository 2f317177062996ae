//! Saved SSH servers: the persisted server book with favorites, connection
//! stamps and search. File reading and writing stay outside; this store works
//! on the value that a file holds.

use vstd::prelude::*;
use vstd::string::StrSliceExecFns;
use vstd::string::StringExecFns;

use crate::ssh::SshConnection;
use crate::strutil::str_eq;
use crate::strutil::spec_lower;
use crate::strutil::spec_contains_seq;
use crate::strutil::contains_insensitive;
use crate::trusted::fresh_uuid;
use crate::trusted::now_epoch_seconds;

verus! {

/// One saved SSH server entry. The connection stamp is held in epoch
/// seconds.
#[derive(Debug)]
pub struct SavedSshServer {
    pub id: String,
    pub name: String,
    pub host: String,
    pub port: u16,
    pub username: String,
    pub password: String,
    pub private_key_path: Option<String>,
    pub last_connected: Option<i64>,
    pub is_favorite: bool,
    pub description: Option<String>,
}

impl Clone for SavedSshServer {
    fn clone(&self) -> (r: Self)
        ensures
            r == *self,
    {
        SavedSshServer {
            id: self.id.clone(),
            name: self.name.clone(),
            host: self.host.clone(),
            port: self.port,
            username: self.username.clone(),
            password: self.password.clone(),
            private_key_path: match &self.private_key_path {
                Some(s) => Some(s.clone()),
                None => None,
            },
            last_connected: self.last_connected,
            is_favorite: self.is_favorite,
            description: match &self.description {
                Some(s) => Some(s.clone()),
                None => None,
            },
        }
    }
}

impl SavedSshServer {
    /// A fresh entry with a generated id; the port defaults to 22.
    pub fn new(name: String, host: String, username: String, port: Option<u16>) -> (r: Self)
        ensures
            r.name == name,
            r.host == host,
            r.username == username,
            r.port == match port {
                Some(p) => p,
                None => 22,
            },
            r.password@ == Seq::<char>::empty(),
            r.private_key_path is None,
            r.last_connected is None,
            r.is_favorite == false,
            r.description is None,
            r.id@.len() == 36,
    {
        SavedSshServer {
            id: fresh_uuid(),
            name,
            host,
            port: match port {
                Some(p) => p,
                None => 22,
            },
            username,
            password: String::new(),
            private_key_path: None,
            last_connected: None,
            is_favorite: false,
            description: None,
        }
    }

    /// The raw connection parameters of this entry.
    pub fn to_ssh_connection(&self) -> (r: SshConnection)
        ensures
            r.host == self.host,
            r.port == self.port,
            r.username == self.username,
            r.password == self.password,
            r.private_key == self.private_key_path,
            r.passphrase is None,
    {
        SshConnection {
            host: self.host.clone(),
            port: self.port,
            username: self.username.clone(),
            password: self.password.clone(),
            private_key: match &self.private_key_path {
                Some(s) => Some(s.clone()),
                None => None,
            },
            passphrase: None,
        }
    }

    /// Stamps the entry with the current time.
    pub fn update_last_connected(&mut self)
        ensures
            final(self).last_connected is Some,
            final(self).id == old(self).id,
            final(self).name == old(self).name,
            final(self).host == old(self).host,
            final(self).port == old(self).port,
            final(self).username == old(self).username,
            final(self).password == old(self).password,
            final(self).private_key_path == old(self).private_key_path,
            final(self).is_favorite == old(self).is_favorite,
            final(self).description == old(self).description,
    {
        self.last_connected = Some(now_epoch_seconds());
    }
}

/// The persisted server list; the file's timestamp is epoch seconds.
#[derive(Debug)]
pub struct SshServerConfig {
    pub servers: Vec<SavedSshServer>,
    pub last_updated: i64,
}

/// Equality on every field but `last_connected`, which `mark_as_connected`
/// refreshes, and `is_favorite`, which `toggle_favorite` flips.
pub open spec fn same_but_stamp(a: SavedSshServer, b: SavedSshServer) -> bool {
    a.id == b.id && a.name == b.name && a.host == b.host && a.port == b.port && a.username
        == b.username && a.password == b.password && a.private_key_path == b.private_key_path
        && a.description == b.description
}

/// The in-memory server book behind the persistence layer. Loading from and
/// saving to disk happen outside; every operation here is on the value.
#[derive(Debug)]
pub struct SshPersistence {
    config: SshServerConfig,
}

impl SshPersistence {
    /// An empty book.
    pub fn new() -> (r: Self)
        ensures
            r.spec_servers().len() == 0,
    {
        SshPersistence { config: SshServerConfig { servers: Vec::new(), last_updated: 0 } }
    }

    /// Wraps a loaded configuration value.
    pub fn from_config(config: SshServerConfig) -> (r: Self)
        ensures
            r.spec_servers() == config.servers@,
    {
        SshPersistence { config }
    }

    /// The wrapped configuration, for saving.
    pub fn config(&self) -> (r: &SshServerConfig)
        ensures
            r.servers@ == self.spec_servers(),
    {
        &self.config
    }

    /// The stored entries.
    pub closed spec fn spec_servers(&self) -> Seq<SavedSshServer> {
        self.config.servers@
    }

    /// Adds an entry, replacing any entry that carries the same id.
    pub fn add_server(&mut self, server: SavedSshServer)
        ensures
            final(self).spec_servers() == old(self).spec_servers().filter(
                |s: SavedSshServer| s.id@ != server.id@,
            ).push(server),
    {
        let ghost sid = server.id@;
        let mut taken: Vec<SavedSshServer> = Vec::new();
        core::mem::swap(&mut taken, &mut self.config.servers);
        let mut kept = Self::retain_other_ids(taken, server.id.as_str());
        kept.push(server);
        self.config.servers = kept;
    }

    fn retain_other_ids(servers: Vec<SavedSshServer>, id: &str) -> (r: Vec<SavedSshServer>)
        ensures
            r@ == servers@.filter(|s: SavedSshServer| s.id@ != id@),
    {
        let ghost orig = servers@;
        let ghost pred = |s: SavedSshServer| s.id@ != id@;
        let mut rest = servers;
        let mut out: Vec<SavedSshServer> = Vec::new();
        let ghost mut done: int = 0;
        proof {
            reveal(Seq::filter);
            assert(orig.take(0) =~= Seq::<SavedSshServer>::empty());
        }
        while rest.len() > 0
            invariant
                0 <= done <= orig.len(),
                rest@ =~= orig.skip(done),
                out@ == orig.take(done).filter(pred),
                pred == (|s: SavedSshServer| s.id@ != id@),
            decreases rest@.len(),
        {
            let s = rest.remove(0);
            proof {
                reveal(Seq::filter);
                assert(s == orig[done]);
                assert(rest@ =~= orig.skip(done + 1));
                assert(orig.take(done + 1).drop_last() =~= orig.take(done));
                assert(orig.take(done + 1).last() == orig[done]);
            }
            if str_eq(s.id.as_str(), id) {
                proof {
                    assert(out@ =~= orig.take(done + 1).filter(pred));
                }
            } else {
                out.push(s);
                proof {
                    assert(out@ =~= orig.take(done + 1).filter(pred));
                }
            }
            proof {
                done = done + 1;
            }
        }
        proof {
            assert(orig.take(orig.len() as int) =~= orig);
        }
        out
    }

    fn find_index(&self, server_id: &str) -> (r: Option<usize>)
        ensures
            match r {
                Some(i) => i < self.spec_servers().len() && self.spec_servers()[i as int].id@
                    == server_id@ && forall|j: int|
                    0 <= j < i ==> (#[trigger] self.spec_servers()[j].id@) != server_id@,
                None => forall|j: int|
                    0 <= j < self.spec_servers().len() ==> (#[trigger] self.spec_servers()[j].id@)
                        != server_id@,
            },
    {
        let n = self.config.servers.len();
        let mut i: usize = 0;
        while i < n
            invariant
                n == self.spec_servers().len(),
                self.spec_servers() == self.config.servers@,
                i <= n,
                forall|j: int| 0 <= j < i ==> (#[trigger] self.spec_servers()[j].id@) != server_id@,
            decreases n - i,
        {
            if str_eq(self.config.servers[i].id.as_str(), server_id) {
                return Some(i);
            }
            i = i + 1;
        }
        None
    }

    /// Removes the entries with this id; an unknown id is an error and
    /// leaves the book unchanged.
    pub fn remove_server(&mut self, server_id: &str) -> (r: Result<(), String>)
        ensures
            match r {
                Ok(()) => (exists|j: int|
                    0 <= j < old(self).spec_servers().len() && (#[trigger] old(self).spec_servers()[j].id@) == server_id@) && final(self).spec_servers() == old(self).spec_servers().filter(|s: SavedSshServer| s.id@ != server_id@),
                Err(m) => (forall|j: int|
                    0 <= j < old(self).spec_servers().len() ==> (#[trigger] old(self).spec_servers()[j].id@) != server_id@) && final(self).spec_servers() == old(self).spec_servers() && m@ == "Server not found"@,
            },
    {
        broadcast use vstd::seq_lib::group_filter_ensures;

        match self.find_index(server_id) {
            Some(i) => {
                let mut taken: Vec<SavedSshServer> = Vec::new();
                core::mem::swap(&mut taken, &mut self.config.servers);
                let kept = Self::retain_other_ids(taken, server_id);
                self.config.servers = kept;
                Ok(())
            },
            None => Err("Server not found".to_owned()),
        }
    }

    /// The entry with this id, if any (the first match).
    pub fn get_server(&self, server_id: &str) -> (r: Option<SavedSshServer>)
        ensures
            match r {
                Some(s) => exists|i: int|
                    0 <= i < self.spec_servers().len() && (#[trigger] self.spec_servers()[i]) == s
                        && s.id@ == server_id@,
                None => forall|j: int|
                    0 <= j < self.spec_servers().len() ==> (#[trigger] self.spec_servers()[j].id@)
                        != server_id@,
            },
    {
        match self.find_index(server_id) {
            Some(i) => {
                let s = self.config.servers[i].clone();
                proof {
                    assert(self.spec_servers()[i as int] == s);
                }
                Some(s)
            },
            None => None,
        }
    }

    /// All entries, in stored order.
    pub fn list_servers(&self) -> (r: Vec<SavedSshServer>)
        ensures
            r@ == self.spec_servers(),
    {
        let n = self.config.servers.len();
        let mut out: Vec<SavedSshServer> = Vec::new();
        let mut i: usize = 0;
        while i < n
            invariant
                n == self.spec_servers().len(),
                self.spec_servers() == self.config.servers@,
                i <= n,
                out@ =~= self.spec_servers().take(i as int),
            decreases n - i,
        {
            out.push(self.config.servers[i].clone());
            proof {
                assert(out@ =~= self.spec_servers().take(i as int + 1));
            }
            i = i + 1;
        }
        proof {
            assert(out@ =~= self.spec_servers());
        }
        out
    }

    /// The favorite entries, in stored order.
    pub fn get_favorites(&self) -> (r: Vec<SavedSshServer>)
        ensures
            r@ == self.spec_servers().filter(|s: SavedSshServer| s.is_favorite),
    {
        let ghost pred = |s: SavedSshServer| s.is_favorite;
        let n = self.config.servers.len();
        let mut out: Vec<SavedSshServer> = Vec::new();
        let mut i: usize = 0;
        proof {
            reveal(Seq::filter);
            assert(self.spec_servers().take(0) =~= Seq::<SavedSshServer>::empty());
        }
        while i < n
            invariant
                n == self.spec_servers().len(),
                self.spec_servers() == self.config.servers@,
                i <= n,
                out@ == self.spec_servers().take(i as int).filter(pred),
                pred == (|s: SavedSshServer| s.is_favorite),
            decreases n - i,
        {
            proof {
                reveal(Seq::filter);
                assert(self.spec_servers().take(i as int + 1).drop_last() =~= self.spec_servers().take(
                    i as int,
                ));
                assert(self.spec_servers().take(i as int + 1).last() == self.spec_servers()[i as int]);
            }
            if self.config.servers[i].is_favorite {
                out.push(self.config.servers[i].clone());
            }
            proof {
                assert(out@ =~= self.spec_servers().take(i as int + 1).filter(pred));
            }
            i = i + 1;
        }
        proof {
            assert(self.spec_servers().take(n as int) =~= self.spec_servers());
        }
        out
    }

    /// Stamps the first entry with this id as just connected; an unknown id
    /// leaves the book unchanged (and is not an error).
    pub fn mark_as_connected(&mut self, server_id: &str) -> (r: Result<(), String>)
        ensures
            r is Ok,
            final(self).spec_servers().len() == old(self).spec_servers().len(),
            forall|j: int|
                0 <= j < old(self).spec_servers().len() ==> same_but_stamp(
                    #[trigger] final(self).spec_servers()[j],
                    old(self).spec_servers()[j],
                ) && final(self).spec_servers()[j].is_favorite == old(self).spec_servers()[j].is_favorite,
            match first_id_idx(old(self).spec_servers(), server_id@) {
                Some(i) => final(self).spec_servers()[i].last_connected is Some && (forall|j: int|
                    0 <= j < old(self).spec_servers().len() && j != i
                        ==> (#[trigger] final(self).spec_servers()[j]).last_connected
                        == old(self).spec_servers()[j].last_connected),
                None => final(self).spec_servers() == old(self).spec_servers(),
            },
    {
        match self.find_index(server_id) {
            Some(i) => {
                proof {
                    lemma_first_id_some(self.spec_servers(), server_id@, i as int);
                }
                let mut s = self.config.servers.remove(i);
                s.update_last_connected();
                self.config.servers.insert(i, s);
                proof {
                    assert(final(self).spec_servers() =~= old(self).spec_servers().update(
                        i as int,
                        final(self).spec_servers()[i as int],
                    ));
                }
                Ok(())
            },
            None => {
                proof {
                    lemma_first_id_none(self.spec_servers(), server_id@);
                }
                Ok(())
            },
        }
    }

    /// Flips the favorite flag of the first entry with this id and returns
    /// the new value; an unknown id is an error.
    pub fn toggle_favorite(&mut self, server_id: &str) -> (r: Result<bool, String>)
        ensures
            match r {
                Ok(fav) => match first_id_idx(old(self).spec_servers(), server_id@) {
                    Some(i) => {
                        &&& final(self).spec_servers() == old(self).spec_servers().update(
                            i,
                            final(self).spec_servers()[i],
                        )
                        &&& same_but_stamp(
                            final(self).spec_servers()[i],
                            old(self).spec_servers()[i],
                        )
                        &&& final(self).spec_servers()[i].last_connected == old(self).spec_servers()[i].last_connected
                        &&& final(self).spec_servers()[i].is_favorite == !old(self).spec_servers()[i].is_favorite
                        &&& fav == !old(self).spec_servers()[i].is_favorite
                    },
                    None => false,
                },
                Err(m) => first_id_idx(old(self).spec_servers(), server_id@) is None && final(self).spec_servers() == old(self).spec_servers() && m@ == "Server not found"@,
            },
    {
        match self.find_index(server_id) {
            Some(i) => {
                proof {
                    lemma_first_id_some(self.spec_servers(), server_id@, i as int);
                }
                let mut s = self.config.servers.remove(i);
                let fav = !s.is_favorite;
                s.is_favorite = fav;
                self.config.servers.insert(i, s);
                proof {
                    assert(final(self).spec_servers() =~= old(self).spec_servers().update(
                        i as int,
                        final(self).spec_servers()[i as int],
                    ));
                }
                Ok(fav)
            },
            None => {
                proof {
                    lemma_first_id_none(self.spec_servers(), server_id@);
                }
                Err("Server not found".to_owned())
            },
        }
    }

    /// The entries whose name, host, username or description contains the
    /// query, case-insensitively.
    pub fn search_servers(&self, query: &str) -> (r: Vec<SavedSshServer>)
        ensures
            r@ == self.spec_servers().filter(
                |s: SavedSshServer| spec_search_hit(s, query@),
            ),
    {
        let ghost pred = |s: SavedSshServer| spec_search_hit(s, query@);
        let n = self.config.servers.len();
        let mut out: Vec<SavedSshServer> = Vec::new();
        let mut i: usize = 0;
        proof {
            reveal(Seq::filter);
            assert(self.spec_servers().take(0) =~= Seq::<SavedSshServer>::empty());
        }
        while i < n
            invariant
                n == self.spec_servers().len(),
                self.spec_servers() == self.config.servers@,
                i <= n,
                out@ == self.spec_servers().take(i as int).filter(pred),
                pred == (|s: SavedSshServer| spec_search_hit(s, query@)),
            decreases n - i,
        {
            proof {
                reveal(Seq::filter);
                assert(self.spec_servers().take(i as int + 1).drop_last() =~= self.spec_servers().take(
                    i as int,
                ));
                assert(self.spec_servers().take(i as int + 1).last() == self.spec_servers()[i as int]);
            }
            if search_hit(&self.config.servers[i], query) {
                out.push(self.config.servers[i].clone());
            }
            proof {
                assert(out@ =~= self.spec_servers().take(i as int + 1).filter(pred));
            }
            i = i + 1;
        }
        proof {
            assert(self.spec_servers().take(n as int) =~= self.spec_servers());
        }
        out
    }
}

/// Some entry already covers this host-and-username pair.
pub open spec fn spec_has_pair(ss: Seq<SavedSshServer>, host: Seq<char>, user: Seq<char>) -> bool {
    exists|i: int|
        0 <= i < ss.len() && (#[trigger] ss[i]).host@ == host && ss[i].username@ == user
}

/// Importing entries into a list: an entry whose host and username are
/// already covered is skipped, the rest are appended in order.
pub open spec fn spec_import_saved(cur: Seq<SavedSshServer>, imported: Seq<SavedSshServer>) -> Seq<
    SavedSshServer,
>
    decreases imported.len(),
{
    if imported.len() == 0 {
        cur
    } else {
        let c2 = spec_import_saved(cur, imported.drop_last());
        let x = imported.last();
        if spec_has_pair(c2, x.host@, x.username@) {
            c2
        } else {
            c2.push(x)
        }
    }
}

impl SshPersistence {
    fn has_pair(&self, host: &str, user: &str) -> (r: bool)
        ensures
            r == spec_has_pair(self.spec_servers(), host@, user@),
    {
        let n = self.config.servers.len();
        let mut i: usize = 0;
        while i < n
            invariant
                n == self.spec_servers().len(),
                self.spec_servers() == self.config.servers@,
                i <= n,
                forall|j: int|
                    0 <= j < i ==> !((#[trigger] self.spec_servers()[j]).host@ == host@
                        && self.spec_servers()[j].username@ == user@),
            decreases n - i,
        {
            if str_eq(self.config.servers[i].host.as_str(), host) && str_eq(
                self.config.servers[i].username.as_str(),
                user,
            ) {
                return true;
            }
            i = i + 1;
        }
        false
    }

    /// Imports saved entries, either merged into the current book or
    /// replacing it; entries whose host and username are already covered are
    /// skipped. Returns how many were appended.
    pub fn import_servers(&mut self, imported: Vec<SavedSshServer>, merge: bool) -> (r: usize)
        ensures
            ({
                let start = if merge {
                    old(self).spec_servers()
                } else {
                    Seq::<SavedSshServer>::empty()
                };
                &&& final(self).spec_servers() == spec_import_saved(start, imported@)
                &&& r as nat == spec_import_saved(start, imported@).len() - start.len()
            }),
    {
        if !merge {
            let mut taken: Vec<SavedSshServer> = Vec::new();
            core::mem::swap(&mut taken, &mut self.config.servers);
            taken.clear();
            self.config.servers = taken;
        }
        let ghost start = self.spec_servers();
        let ghost iv = imported@;
        let mut imported = imported;
        let total = imported.len();
        let mut added: usize = 0;
        let ghost mut done: int = 0;
        proof {
            assert(iv.len() == total);
            assert(iv.take(0) =~= Seq::<SavedSshServer>::empty());
        }
        while imported.len() > 0
            invariant
                0 <= done <= iv.len(),
                iv.len() <= usize::MAX,
                imported@ =~= iv.skip(done),
                self.spec_servers() == spec_import_saved(start, iv.take(done)),
                added as nat == spec_import_saved(start, iv.take(done)).len() - start.len(),
                added <= done,
            decreases imported@.len(),
        {
            let x = imported.remove(0);
            proof {
                assert(x == iv[done]);
                assert(imported@ =~= iv.skip(done + 1));
                assert(iv.take(done + 1).drop_last() =~= iv.take(done));
                assert(iv.take(done + 1).last() == iv[done]);
            }
            if !self.has_pair(x.host.as_str(), x.username.as_str()) {
                self.config.servers.push(x);
                added = added + 1;
            }
            proof {
                done = done + 1;
            }
        }
        proof {
            assert(iv.take(iv.len() as int) =~= iv);
        }
        added
    }

    /// The most recently connected entries first (never-connected ones last,
    /// ordered by name), cut to `limit`.
    pub fn get_recent_servers(&self, limit: usize) -> (r: Vec<SavedSshServer>)
        ensures
            exists|sorted: Seq<SavedSshServer>|
                {
                    &&& #[trigger] spec_recent_sorted(sorted)
                    &&& sorted.to_multiset() == self.spec_servers().to_multiset()
                    &&& r@ == sorted.take(
                        if limit > sorted.len() {
                            sorted.len() as int
                        } else {
                            limit as int
                        },
                    )
                },
    {
        let mut sorted = sort_recent(self.list_servers());
        let ghost full = sorted@;
        sorted.truncate(limit);
        proof {
            if limit > full.len() {
                assert(sorted@ =~= full.take(full.len() as int));
            }
        }
        sorted
    }
}

/// The display order of saved entries: more recently connected first, the
/// never-connected ones after all stamped ones, and those ordered by name.
pub open spec fn spec_recent_le(a: SavedSshServer, b: SavedSshServer) -> bool {
    match (a.last_connected, b.last_connected) {
        (Some(x), Some(y)) => x >= y,
        (Some(_), None) => true,
        (None, Some(_)) => false,
        (None, None) => crate::strutil::spec_lex_le(a.name@, b.name@),
    }
}

pub open spec fn spec_recent_sorted(s: Seq<SavedSshServer>) -> bool {
    forall|i: int, j: int| 0 <= i < j < s.len() ==> spec_recent_le(#[trigger] s[i], #[trigger] s[j])
}

proof fn lemma_recent_le_trans(a: SavedSshServer, b: SavedSshServer, c: SavedSshServer)
    requires
        spec_recent_le(a, b),
        spec_recent_le(b, c),
    ensures
        spec_recent_le(a, c),
{
    if a.last_connected is None && b.last_connected is None && c.last_connected is None {
        crate::strutil::lemma_lex_le_trans(a.name@, b.name@, c.name@);
    }
}

proof fn lemma_recent_le_total(a: SavedSshServer, b: SavedSshServer)
    ensures
        spec_recent_le(a, b) || spec_recent_le(b, a),
{
    if a.last_connected is None && b.last_connected is None {
        crate::strutil::lemma_lex_total(a.name@, b.name@);
    }
}

fn recent_le(a: &SavedSshServer, b: &SavedSshServer) -> (r: bool)
    ensures
        r == spec_recent_le(*a, *b),
{
    match (&a.last_connected, &b.last_connected) {
        (Some(x), Some(y)) => *x >= *y,
        (Some(_), None) => true,
        (None, Some(_)) => false,
        (None, None) => crate::strutil::str_le(a.name.as_str(), b.name.as_str()),
    }
}

fn insert_recent_sorted(v: &mut Vec<SavedSshServer>, x: SavedSshServer)
    requires
        spec_recent_sorted(old(v)@),
    ensures
        spec_recent_sorted(final(v)@),
        final(v)@.to_multiset() == old(v)@.to_multiset().insert(x),
{
    broadcast use vstd::seq_lib::group_to_multiset_ensures;
    broadcast use vstd::seq_lib::to_multiset_insert;

    let ghost vs0 = v@;
    let n = v.len();
    let mut i: usize = 0;
    while i < n && recent_le(&v[i], &x)
        invariant
            n == v@.len(),
            vs0 == v@,
            i <= n,
            forall|j: int| 0 <= j < i ==> spec_recent_le(#[trigger] vs0[j], x),
        decreases n - i,
    {
        i = i + 1;
    }
    proof {
        if i < n {
            lemma_recent_le_total(vs0[i as int], x);
        }
    }
    v.insert(i, x);
    proof {
        let vs1 = v@;
        assert(vs1 =~= vs0.insert(i as int, x));
        assert forall|a: int, b: int| 0 <= a < b < vs1.len() implies spec_recent_le(
            #[trigger] vs1[a],
            #[trigger] vs1[b],
        ) by {
            if a == i {
                assert(vs1[b] == vs0[b - 1]);
                if b - 1 == i {
                    assert(spec_recent_le(x, vs0[i as int]));
                } else {
                    lemma_recent_le_trans(x, vs0[i as int], vs0[b - 1]);
                }
            } else if b == i {
                assert(vs1[a] == vs0[a]);
            } else {
                let a0 = if a < i {
                    a
                } else {
                    a - 1
                };
                let b0 = if b < i {
                    b
                } else {
                    b - 1
                };
                assert(vs1[a] == vs0[a0]);
                assert(vs1[b] == vs0[b0]);
                if a0 == b0 {
                    assert(a < i && b > i && a == b - 1);
                    assert(false);
                }
            }
        }
    }
}

fn sort_recent(servers: Vec<SavedSshServer>) -> (r: Vec<SavedSshServer>)
    ensures
        spec_recent_sorted(r@),
        r@.to_multiset() == servers@.to_multiset(),
{
    broadcast use vstd::seq_lib::group_to_multiset_ensures;

    let ghost orig = servers@;
    let mut servers = servers;
    let mut out: Vec<SavedSshServer> = Vec::new();
    let ghost mut done: int = 0;
    while servers.len() > 0
        invariant
            0 <= done <= orig.len(),
            servers@ =~= orig.skip(done),
            spec_recent_sorted(out@),
            out@.to_multiset() == orig.take(done).to_multiset(),
        decreases servers@.len(),
    {
        let x = servers.remove(0);
        proof {
            assert(x == orig[done]);
            assert(servers@ =~= orig.skip(done + 1));
            assert(orig.take(done + 1) =~= orig.take(done).push(x));
            vstd::seq_lib::to_multiset_build(orig.take(done), x);
        }
        insert_recent_sorted(&mut out, x);
        proof {
            done = done + 1;
        }
    }
    proof {
        assert(orig.take(orig.len() as int) =~= orig);
    }
    out
}

/// A saved entry matches a search query when its name, host, username or
/// description contains it, case-insensitively.
pub open spec fn spec_search_hit(s: SavedSshServer, query: Seq<char>) -> bool {
    let q = spec_lower(query);
    spec_contains_seq(spec_lower(s.name@), q) || spec_contains_seq(spec_lower(s.host@), q)
        || spec_contains_seq(spec_lower(s.username@), q) || (match s.description {
        Some(d) => spec_contains_seq(spec_lower(d@), q),
        None => false,
    })
}

fn search_hit(s: &SavedSshServer, query: &str) -> (r: bool)
    ensures
        r == spec_search_hit(*s, query@),
{
    contains_insensitive(s.name.as_str(), query) || contains_insensitive(s.host.as_str(), query)
        || contains_insensitive(s.username.as_str(), query) || (match &s.description {
        Some(d) => contains_insensitive(d.as_str(), query),
        None => false,
    })
}

/// First index of an entry with this id, if any.
pub open spec fn first_id_idx(ss: Seq<SavedSshServer>, id: Seq<char>) -> Option<int>
    decreases ss.len(),
{
    if ss.len() == 0 {
        None
    } else if ss[0].id@ == id {
        Some(0int)
    } else {
        match first_id_idx(ss.drop_first(), id) {
            Some(i) => Some(i + 1),
            None => None,
        }
    }
}

proof fn lemma_first_id_some(ss: Seq<SavedSshServer>, id: Seq<char>, i: int)
    requires
        0 <= i < ss.len(),
        ss[i].id@ == id,
        forall|j: int| 0 <= j < i ==> (#[trigger] ss[j].id@) != id,
    ensures
        first_id_idx(ss, id) == Some(i),
    decreases ss.len(),
{
    if ss[0].id@ != id {
        assert(i > 0);
        assert forall|j: int| 0 <= j < i - 1 implies (#[trigger] ss.drop_first()[j].id@) != id by {
            assert(ss.drop_first()[j] == ss[j + 1]);
        }
        assert(ss.drop_first()[i - 1] == ss[i]);
        lemma_first_id_some(ss.drop_first(), id, i - 1);
    }
}

proof fn lemma_first_id_none(ss: Seq<SavedSshServer>, id: Seq<char>)
    requires
        forall|j: int| 0 <= j < ss.len() ==> (#[trigger] ss[j].id@) != id,
    ensures
        first_id_idx(ss, id) is None,
    decreases ss.len(),
{
    if ss.len() > 0 {
        assert forall|j: int| 0 <= j < ss.drop_first().len() implies (
        #[trigger] ss.drop_first()[j].id@) != id by {
            assert(ss.drop_first()[j] == ss[j + 1]);
        }
        lemma_first_id_none(ss.drop_first(), id);
    }
}

} // verus!
