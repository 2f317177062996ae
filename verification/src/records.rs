//! Resource records: the normalized container, image, network and volume
//! listings, the derived in-use flags, filtering, and the deterministic sort
//! orders for display.

use vstd::prelude::*;
use vstd::string::StrSliceExecFns;
use vstd::string::StringExecFns;

use crate::strutil::first_pos;
use crate::strutil::find_char;
use crate::strutil::str_eq;
use crate::strutil::spec_starts_with;
use crate::strutil::spec_trim;
use crate::strutil::trim;
use crate::strutil::spec_lower;
use crate::strutil::spec_contains_seq;
use crate::strutil::contains_insensitive;
use crate::strutil::spec_lex_le;
use crate::strutil::views;
use crate::parse::spec_container_status;
use crate::parse::parse_container_status;

verus! {

/// One container listing entry.
#[derive(Debug, Clone)]
pub struct ContainerInfo {
    pub id: String,
    pub name: String,
    pub image: String,
    pub state: String,
    pub status: String,
    /// The raw port-mapping string as the listing reported it.
    pub ports: String,
    /// The published host ports as numbers.
    pub ports_list: Vec<i32>,
    /// Creation time in epoch seconds; 0 when unknown.
    pub created: i64,
    pub running_for: String,
}

/// One image listing entry.
#[derive(Debug, Clone)]
pub struct ImageInfo {
    pub id: String,
    pub tags: Vec<String>,
    pub created: i64,
    pub size: i64,
    pub in_use: bool,
}

/// One network listing entry.
#[derive(Debug, Clone)]
pub struct NetworkInfo {
    pub id: String,
    pub name: String,
    pub driver: String,
    pub scope: String,
    pub created: String,
    pub containers_count: i32,
    pub is_system: bool,
    pub in_use: bool,
}

/// One volume listing entry.
#[derive(Debug, Clone)]
pub struct VolumeInfo {
    pub name: String,
    pub driver: String,
    pub mountpoint: String,
    pub created: String,
    pub containers_count: i32,
    pub in_use: bool,
}

/// Health of the daemon behind the active execution context.
#[derive(Debug, Clone, Copy, PartialEq, Eq, Structural)]
pub enum DockerStatus {
    Running,
    NotRunning,
    NotInstalled,
    PermissionDenied,
}

impl DockerStatus {
    /// Display label of the status.
    pub fn message(&self) -> (r: String)
        ensures
            r@ == match *self {
                DockerStatus::Running => "Rodando"@,
                DockerStatus::NotRunning => "Nao esta rodando"@,
                DockerStatus::NotInstalled => "Nao instalado"@,
                DockerStatus::PermissionDenied => "Permissao negada"@,
            },
    {
        match self {
            DockerStatus::Running => "Rodando".to_owned(),
            DockerStatus::NotRunning => "Nao esta rodando".to_owned(),
            DockerStatus::NotInstalled => "Nao instalado".to_owned(),
            DockerStatus::PermissionDenied => "Permissao negada".to_owned(),
        }
    }
}

/// Daemon-wide summary counts.
#[derive(Debug, Clone)]
pub struct DockerInfo {
    pub version: String,
    pub containers: i64,
    pub containers_paused: i64,
    pub containers_running: i64,
    pub containers_stopped: i64,
    pub images: i64,
    pub architecture: String,
}

/// Per-container statistics row. Percentages are milli-percent fixed point:
/// `80_000` means `80.0 %`.
#[derive(Debug, Clone)]
pub struct ContainerStats {
    pub id: String,
    pub name: String,
    pub cpu_percent_milli: u64,
    pub memory_usage: u64,
    pub memory_limit: u64,
    pub memory_percent_milli: u64,
    pub network_rx: u64,
    pub network_tx: u64,
    pub block_read: u64,
    pub block_write: u64,
}

/// Aggregate usage over all running containers, plus the per-container rows.
#[derive(Debug, Clone)]
pub struct DockerSystemUsage {
    pub cpu_online: u64,
    pub cpu_usage_milli: u64,
    pub memory_usage: u64,
    pub memory_limit: u64,
    pub memory_percent_milli: u64,
    pub network_rx_bytes: u64,
    pub network_tx_bytes: u64,
    pub block_read_bytes: u64,
    pub block_write_bytes: u64,
    pub containers_stats: Vec<ContainerStats>,
}

/// Request to create and start a container.
#[derive(Debug, Clone)]
pub struct CreateContainerRequest {
    pub name: String,
    pub image: String,
    pub ports: Vec<PortMapping>,
    pub volumes: Vec<VolumeMapping>,
    pub environment: Vec<EnvVar>,
    pub command: Option<String>,
    pub restart_policy: String,
}

/// One host-to-container port mapping.
#[derive(Debug, Clone)]
pub struct PortMapping {
    pub host_port: u16,
    pub container_port: u16,
    pub protocol: String,
}

/// One host-path-to-container-path bind mount.
#[derive(Debug, Clone)]
pub struct VolumeMapping {
    pub host_path: String,
    pub container_path: String,
    pub read_only: bool,
}

/// One environment variable.
#[derive(Debug, Clone)]
pub struct EnvVar {
    pub key: String,
    pub value: String,
}

/// Host facts of a remote Docker daemon, as its system-info call reports
/// them.
#[derive(Debug, Clone)]
pub struct RemoteDockerSystemInfo {
    pub version: String,
    pub api_version: String,
    pub os: String,
    pub architecture: String,
    pub kernel_version: String,
    pub total_memory: u64,
    pub ncpu: u32,
    pub containers_running: usize,
    pub containers_paused: usize,
    pub containers_stopped: usize,
    pub images: usize,
    pub server_version: String,
}

/// An image reference with the default `:latest` tag made explicit.
pub open spec fn spec_with_latest(s: Seq<char>) -> Seq<char> {
    if first_pos(s, ':') == s.len() {
        s + ":latest"@
    } else {
        s
    }
}

/// A container image reference and an image tag name the same image once
/// missing tags are normalized to `:latest` on both sides.
pub open spec fn spec_image_match(container_image: Seq<char>, tag: Seq<char>) -> bool {
    spec_with_latest(container_image) == spec_with_latest(tag)
}

fn with_latest(s: &str) -> (r: String)
    ensures
        r@ == spec_with_latest(s@),
{
    let len = s.unicode_len();
    let colon = find_char(s, ':');
    if colon == len {
        let mut out = s.to_owned();
        out.append(":latest");
        out
    } else {
        s.to_owned()
    }
}

/// Tests whether a container image reference matches an image tag.
pub fn image_matches(container_image: &str, tag: &str) -> (r: bool)
    ensures
        r == spec_image_match(container_image@, tag@),
{
    let a = with_latest(container_image);
    let b = with_latest(tag);
    str_eq(a.as_str(), b.as_str())
}

/// An image with these tags is referenced by at least one of these container
/// image references.
pub open spec fn spec_image_used(tags: Seq<Seq<char>>, images_of_containers: Seq<Seq<char>>) -> bool {
    exists|t: int, c: int|
        0 <= t < tags.len() && 0 <= c < images_of_containers.len() && spec_image_match(
            #[trigger] images_of_containers[c],
            #[trigger] tags[t],
        )
}

fn tag_used_by_containers(tag: &str, containers: &Vec<ContainerInfo>) -> (r: bool)
    ensures
        r == exists|c: int|
            0 <= c < containers@.len() && spec_image_match(
                #[trigger] containers@[c].image@,
                tag@,
            ),
{
    let mut c: usize = 0;
    while c < containers.len()
        invariant
            c <= containers@.len(),
            forall|k: int|
                0 <= k < c ==> !spec_image_match(#[trigger] containers@[k].image@, tag@),
        decreases containers@.len() - c,
    {
        if image_matches(containers[c].image.as_str(), tag) {
            return true;
        }
        c = c + 1;
    }
    false
}

fn image_used(tags: &Vec<String>, containers: &Vec<ContainerInfo>) -> (r: bool)
    ensures
        r == spec_image_used(
            views(tags@),
            containers@.map_values(|c: ContainerInfo| c.image@),
        ),
{
    let ghost tv = views(tags@);
    let ghost cv = containers@.map_values(|c: ContainerInfo| c.image@);
    let mut t: usize = 0;
    while t < tags.len()
        invariant
            tv == views(tags@),
            cv == containers@.map_values(|c: ContainerInfo| c.image@),
            t <= tags@.len(),
            forall|k: int, c: int|
                0 <= k < t && 0 <= c < cv.len() ==> !spec_image_match(
                    #[trigger] cv[c],
                    #[trigger] tv[k],
                ),
        decreases tags@.len() - t,
    {
        if tag_used_by_containers(tags[t].as_str(), containers) {
            proof {
                let c = choose|c: int|
                    0 <= c < containers@.len() && spec_image_match(
                        #[trigger] containers@[c].image@,
                        tags@[t as int]@,
                    );
                assert(cv[c] == containers@[c].image@);
                assert(tv[t as int] == tags@[t as int]@);
                assert(spec_image_match(cv[c], tv[t as int]));
            }
            return true;
        }
        proof {
            assert forall|c: int| 0 <= c < cv.len() implies !spec_image_match(
                #[trigger] cv[c],
                tv[t as int],
            ) by {
                assert(cv[c] == containers@[c].image@);
                assert(tv[t as int] == tags@[t as int]@);
            }
        }
        t = t + 1;
    }
    false
}

/// Recomputes the in-use flag of every image against the container list: an
/// image is in use exactly when some container references one of its tags
/// (with `:latest` made explicit on both sides). All other fields are kept.
pub fn mark_images_in_use(images: Vec<ImageInfo>, containers: &Vec<ContainerInfo>) -> (r: Vec<
    ImageInfo,
>)
    ensures
        r@.len() == images@.len(),
        forall|i: int|
            0 <= i < images@.len() ==> {
                let o = #[trigger] r@[i];
                let g = images@[i];
                o.id == g.id && o.tags == g.tags && o.created == g.created && o.size == g.size
                    && o.in_use == spec_image_used(
                    views(g.tags@),
                    containers@.map_values(|c: ContainerInfo| c.image@),
                )
            },
{
    let ghost orig = images@;
    let mut images = images;
    let mut out: Vec<ImageInfo> = Vec::new();
    while images.len() > 0
        invariant
            out@.len() + images@.len() == orig.len(),
            images@ =~= orig.skip(out@.len() as int),
            forall|k: int|
                0 <= k < out@.len() ==> {
                    let o = #[trigger] out@[k];
                    let g = orig[k];
                    o.id == g.id && o.tags == g.tags && o.created == g.created && o.size == g.size
                        && o.in_use == spec_image_used(
                        views(g.tags@),
                        containers@.map_values(|c: ContainerInfo| c.image@),
                    )
                },
        decreases images@.len(),
    {
        let ghost i = out@.len() as int;
        let img = images.remove(0);
        proof {
            assert(img == orig[i]);
            assert(images@ =~= orig.skip(i + 1));
        }
        let used = image_used(&img.tags, containers);
        let ImageInfo { id, tags, created, size, in_use: _ } = img;
        out.push(ImageInfo { id, tags, created, size, in_use: used });
    }
    out
}

/// A container with exactly this name is in the listing.
pub fn container_name_exists(containers: &Vec<ContainerInfo>, name: &str) -> (r: bool)
    ensures
        r == exists|i: int|
            0 <= i < containers@.len() && (#[trigger] containers@[i].name@) == name@,
{
    let mut i: usize = 0;
    while i < containers.len()
        invariant
            i <= containers@.len(),
            forall|j: int| 0 <= j < i ==> (#[trigger] containers@[j].name@) != name@,
        decreases containers@.len() - i,
    {
        if str_eq(containers[i].name.as_str(), name) {
            return true;
        }
        i = i + 1;
    }
    false
}

/// Some listed image carries this name as a tag, either exactly or as the
/// repository part before a tag separator.
pub open spec fn spec_image_exists(images: Seq<ImageInfo>, name: Seq<char>) -> bool {
    exists|i: int, t: int|
        0 <= i < images.len() && 0 <= t < images[i].tags@.len() && {
            let tag = (#[trigger] images[i].tags@[t])@;
            tag == name || spec_starts_with(tag, name + seq![':'])
        }
}

fn tag_names_image(tag: &str, name: &str) -> (r: bool)
    ensures
        r == (tag@ == name@ || spec_starts_with(tag@, name@ + seq![':'])),
{
    if str_eq(tag, name) {
        return true;
    }
    let mut probe = name.to_owned();
    probe.append(":");
    proof {
        reveal_strlit(":");
        assert(":"@ =~= seq![':']);
        assert(probe@ == name@ + seq![':']);
    }
    crate::strutil::starts_with(tag, probe.as_str())
}

/// Whether an image with this name (bare or with any tag) is listed.
pub fn image_exists(images: &Vec<ImageInfo>, image_name: &str) -> (r: bool)
    ensures
        r == spec_image_exists(images@, image_name@),
{
    let mut i: usize = 0;
    while i < images.len()
        invariant
            i <= images@.len(),
            forall|j: int, t: int|
                0 <= j < i && 0 <= t < images@[j].tags@.len() ==> {
                    let tag = (#[trigger] images@[j].tags@[t])@;
                    !(tag == image_name@ || spec_starts_with(tag, image_name@ + seq![':']))
                },
        decreases images@.len() - i,
    {
        let tags = &images[i].tags;
        let mut t: usize = 0;
        while t < tags.len()
            invariant
                i < images@.len(),
                tags@ == images@[i as int].tags@,
                t <= tags@.len(),
                forall|k: int|
                    0 <= k < t ==> {
                        let tag = (#[trigger] tags@[k])@;
                        !(tag == image_name@ || spec_starts_with(tag, image_name@ + seq![':']))
                    },
            decreases tags@.len() - t,
        {
            if tag_names_image(tags[t].as_str(), image_name) {
                return true;
            }
            t = t + 1;
        }
        i = i + 1;
    }
    false
}

/// How many of the listed references name this resource: the per-network
/// endpoint count and the per-volume mount count both reduce to this.
pub fn count_id_occurrences(ids: &Vec<String>, id: &str) -> (r: usize)
    ensures
        r == ids@.filter(|s: String| s@ == id@).len(),
{
    broadcast use vstd::seq_lib::group_filter_ensures;

    let ghost pred = |s: String| s@ == id@;
    let n = ids.len();
    let mut count: usize = 0;
    let mut i: usize = 0;
    proof {
        reveal(Seq::filter);
        assert(ids@.take(0) =~= Seq::<String>::empty());
    }
    while i < n
        invariant
            n == ids@.len(),
            i <= n,
            count == ids@.take(i as int).filter(pred).len(),
            count <= i,
            pred == (|s: String| s@ == id@),
        decreases n - i,
    {
        proof {
            reveal(Seq::filter);
            assert(ids@.take(i as int + 1).drop_last() =~= ids@.take(i as int));
            assert(ids@.take(i as int + 1).last() == ids@[i as int]);
        }
        if str_eq(ids[i].as_str(), id) {
            count = count + 1;
        }
        i = i + 1;
    }
    proof {
        assert(ids@.take(n as int) =~= ids@);
    }
    count
}

/// Drops the system networks (`bridge`, `host`, `none` carry the flag) and
/// keeps the user-defined ones, in order.
pub fn retain_user_networks(networks: Vec<NetworkInfo>) -> (r: Vec<NetworkInfo>)
    ensures
        r@ == networks@.filter(|n: NetworkInfo| !n.is_system),
{
    let ghost orig = networks@;
    let ghost pred = |n: NetworkInfo| !n.is_system;
    let mut rest = networks;
    let mut out: Vec<NetworkInfo> = Vec::new();
    let ghost mut done: int = 0;
    proof {
        reveal(Seq::filter);
        assert(orig.take(0) =~= Seq::<NetworkInfo>::empty());
    }
    while rest.len() > 0
        invariant
            0 <= done <= orig.len(),
            rest@ =~= orig.skip(done),
            out@ == orig.take(done).filter(pred),
            pred == (|n: NetworkInfo| !n.is_system),
        decreases rest@.len(),
    {
        let n = rest.remove(0);
        proof {
            reveal(Seq::filter);
            assert(n == orig[done]);
            assert(rest@ =~= orig.skip(done + 1));
            assert(orig.take(done + 1).drop_last() =~= orig.take(done));
            assert(orig.take(done + 1).last() == orig[done]);
        }
        if n.is_system {
            proof {
                assert(out@ =~= orig.take(done + 1).filter(pred));
            }
        } else {
            out.push(n);
            proof {
                assert(out@ =~= orig.take(done + 1).filter(pred));
            }
        }
        proof {
            done = done + 1;
        }
    }
    proof {
        assert(orig.take(orig.len() as int) =~= orig);
    }
    out
}

/// A container passes the text search when the search is blank or its name
/// or image contains it, case-insensitively.
pub open spec fn spec_matches_search(c: ContainerInfo, search: Seq<char>) -> bool {
    spec_trim(search).len() == 0 || spec_contains_seq(spec_lower(c.name@), spec_lower(search))
        || spec_contains_seq(spec_lower(c.image@), spec_lower(search))
}

/// A container passes the status filter when the filter is `all` (or
/// unknown) or its normalized status equals the filter.
pub open spec fn spec_matches_status(c: ContainerInfo, filt: Seq<char>) -> bool {
    if filt == "running"@ || filt == "exited"@ || filt == "paused"@ {
        spec_container_status(c.state@, c.status@) == filt
    } else {
        true
    }
}

pub open spec fn spec_matches_filter(c: ContainerInfo, search: Seq<char>, filt: Seq<char>) -> bool {
    spec_matches_search(c, search) && spec_matches_status(c, filt)
}

fn matches_filter(c: &ContainerInfo, search: &str, status_filter: &str) -> (r: bool)
    ensures
        r == spec_matches_filter(*c, search@, status_filter@),
{
    let st = trim(search);
    let matches_search = st.unicode_len() == 0 || contains_insensitive(c.name.as_str(), search)
        || contains_insensitive(c.image.as_str(), search);
    let matches_status = if str_eq(status_filter, "running") || str_eq(status_filter, "exited")
        || str_eq(status_filter, "paused") {
        let cs = parse_container_status(c.state.as_str(), c.status.as_str());
        str_eq(cs.as_str(), status_filter)
    } else {
        true
    };
    matches_search && matches_status
}

/// Keeps the containers that pass both the case-insensitive text search and
/// the status filter, in their original order.
pub fn filter_containers(containers: Vec<ContainerInfo>, search: &str, status_filter: &str) -> (r:
    Vec<ContainerInfo>)
    ensures
        r@ == containers@.filter(
            |c: ContainerInfo| spec_matches_filter(c, search@, status_filter@),
        ),
{
    let ghost orig = containers@;
    let ghost pred = |c: ContainerInfo| spec_matches_filter(c, search@, status_filter@);
    let mut containers = containers;
    let mut out: Vec<ContainerInfo> = Vec::new();
    let ghost mut done: int = 0;
    proof {
        reveal(Seq::filter);
        assert(orig.take(0) =~= Seq::<ContainerInfo>::empty());
    }
    while containers.len() > 0
        invariant
            0 <= done <= orig.len(),
            containers@ =~= orig.skip(done),
            out@ == orig.take(done).filter(pred),
            pred == (|c: ContainerInfo| spec_matches_filter(c, search@, status_filter@)),
        decreases containers@.len(),
    {
        let c = containers.remove(0);
        proof {
            reveal(Seq::filter);
            assert(c == orig[done]);
            assert(containers@ =~= orig.skip(done + 1));
            assert(orig.take(done + 1).drop_last() =~= orig.take(done));
            assert(orig.take(done + 1).last() == orig[done]);
        }
        if matches_filter(&c, search, status_filter) {
            out.push(c);
            proof {
                assert(pred(orig[done]));
                assert(out@ =~= orig.take(done + 1).filter(pred));
            }
        } else {
            proof {
                assert(!pred(orig[done]));
                assert(out@ =~= orig.take(done + 1).filter(pred));
            }
        }
        proof {
            done = done + 1;
        }
    }
    proof {
        assert(orig.take(orig.len() as int) =~= orig);
    }
    out
}


/// The sort key of an image: its first tag, or empty when untagged.
pub open spec fn spec_image_key(img: ImageInfo) -> Seq<char> {
    if img.tags@.len() > 0 {
        img.tags@[0]@
    } else {
        Seq::<char>::empty()
    }
}

pub open spec fn spec_images_sorted(s: Seq<ImageInfo>) -> bool {
    forall|i: int, j: int|
        0 <= i < j < s.len() ==> spec_lex_le(
            spec_image_key(#[trigger] s[i]),
            spec_image_key(#[trigger] s[j]),
        )
}

fn image_key(img: &ImageInfo) -> (r: &str)
    ensures
        r@ == spec_image_key(*img),
{
    if img.tags.len() > 0 {
        let r = img.tags[0].as_str();
        r
    } else {
        let r = "";
        proof {
            reveal_strlit("");
            assert(r@ =~= Seq::<char>::empty());
        }
        r
    }
}

fn insert_image_sorted(v: &mut Vec<ImageInfo>, x: ImageInfo)
    requires
        spec_images_sorted(old(v)@),
    ensures
        spec_images_sorted(final(v)@),
        final(v)@.to_multiset() == old(v)@.to_multiset().insert(x),
{
    broadcast use vstd::seq_lib::group_to_multiset_ensures;
    broadcast use vstd::seq_lib::to_multiset_insert;

    let ghost vs0 = v@;
    let ghost xk = spec_image_key(x);
    let n = v.len();
    let mut i: usize = 0;
    while i < n && crate::strutil::str_le(image_key(&v[i]), image_key(&x))
        invariant
            n == v@.len(),
            vs0 == v@,
            i <= n,
            xk == spec_image_key(x),
            forall|j: int| 0 <= j < i ==> spec_lex_le(spec_image_key(#[trigger] vs0[j]), xk),
        decreases n - i,
    {
        i = i + 1;
    }
    proof {
        if i < n {
            crate::strutil::lemma_lex_total(spec_image_key(vs0[i as int]), xk);
        }
    }
    v.insert(i, x);
    proof {
        let vs1 = v@;
        assert(vs1 =~= vs0.insert(i as int, x));
        assert forall|a: int, b: int| 0 <= a < b < vs1.len() implies spec_lex_le(
            spec_image_key(#[trigger] vs1[a]),
            spec_image_key(#[trigger] vs1[b]),
        ) by {
            if a == i {
                assert(vs1[b] == vs0[b - 1]);
                if b - 1 == i {
                    assert(spec_lex_le(xk, spec_image_key(vs0[i as int])));
                } else {
                    crate::strutil::lemma_lex_le_trans(
                        xk,
                        spec_image_key(vs0[i as int]),
                        spec_image_key(vs0[b - 1]),
                    );
                }
            } else if b == i {
                assert(vs1[a] == vs0[a]);
            } else {
                let a0 = if a < i {
                    a
                } else {
                    a - 1
                };
                let b0 = if b < i {
                    b
                } else {
                    b - 1
                };
                assert(vs1[a] == vs0[a0]);
                assert(vs1[b] == vs0[b0]);
                if a0 == b0 {
                    assert(a < i && b > i && a == b - 1);
                    assert(false);
                }
            }
        }
    }
}

/// Sorts images by their first tag, lexicographically; the multiset of
/// records is unchanged.
pub fn sort_images(images: Vec<ImageInfo>) -> (r: Vec<ImageInfo>)
    ensures
        spec_images_sorted(r@),
        r@.to_multiset() == images@.to_multiset(),
{
    broadcast use vstd::seq_lib::group_to_multiset_ensures;

    let ghost orig = images@;
    let mut images = images;
    let mut out: Vec<ImageInfo> = Vec::new();
    let ghost mut done: int = 0;
    while images.len() > 0
        invariant
            0 <= done <= orig.len(),
            images@ =~= orig.skip(done),
            spec_images_sorted(out@),
            out@.to_multiset() == orig.take(done).to_multiset(),
        decreases images@.len(),
    {
        let x = images.remove(0);
        proof {
            assert(x == orig[done]);
            assert(images@ =~= orig.skip(done + 1));
            assert(orig.take(done + 1) =~= orig.take(done).push(x));
            vstd::seq_lib::to_multiset_build(orig.take(done), x);
            assert(orig.take(done + 1).to_multiset() == orig.take(done).to_multiset().insert(x));
        }
        insert_image_sorted(&mut out, x);
        proof {
            done = done + 1;
        }
    }
    proof {
        assert(orig.take(orig.len() as int) =~= orig);
    }
    out
}

/// The sort key of a network: its name.
pub open spec fn spec_network_key(img: NetworkInfo) -> Seq<char> {
    img.name@
}

pub open spec fn spec_networks_sorted(s: Seq<NetworkInfo>) -> bool {
    forall|i: int, j: int|
        0 <= i < j < s.len() ==> spec_lex_le(
            spec_network_key(#[trigger] s[i]),
            spec_network_key(#[trigger] s[j]),
        )
}

fn network_key(img: &NetworkInfo) -> (r: &str)
    ensures
        r@ == spec_network_key(*img),
{
    img.name.as_str()
}

fn insert_network_sorted(v: &mut Vec<NetworkInfo>, x: NetworkInfo)
    requires
        spec_networks_sorted(old(v)@),
    ensures
        spec_networks_sorted(final(v)@),
        final(v)@.to_multiset() == old(v)@.to_multiset().insert(x),
{
    broadcast use vstd::seq_lib::group_to_multiset_ensures;
    broadcast use vstd::seq_lib::to_multiset_insert;

    let ghost vs0 = v@;
    let ghost xk = spec_network_key(x);
    let n = v.len();
    let mut i: usize = 0;
    while i < n && crate::strutil::str_le(network_key(&v[i]), network_key(&x))
        invariant
            n == v@.len(),
            vs0 == v@,
            i <= n,
            xk == spec_network_key(x),
            forall|j: int| 0 <= j < i ==> spec_lex_le(spec_network_key(#[trigger] vs0[j]), xk),
        decreases n - i,
    {
        i = i + 1;
    }
    proof {
        if i < n {
            crate::strutil::lemma_lex_total(spec_network_key(vs0[i as int]), xk);
        }
    }
    v.insert(i, x);
    proof {
        let vs1 = v@;
        assert(vs1 =~= vs0.insert(i as int, x));
        assert forall|a: int, b: int| 0 <= a < b < vs1.len() implies spec_lex_le(
            spec_network_key(#[trigger] vs1[a]),
            spec_network_key(#[trigger] vs1[b]),
        ) by {
            if a == i {
                assert(vs1[b] == vs0[b - 1]);
                if b - 1 == i {
                    assert(spec_lex_le(xk, spec_network_key(vs0[i as int])));
                } else {
                    crate::strutil::lemma_lex_le_trans(
                        xk,
                        spec_network_key(vs0[i as int]),
                        spec_network_key(vs0[b - 1]),
                    );
                }
            } else if b == i {
                assert(vs1[a] == vs0[a]);
            } else {
                let a0 = if a < i {
                    a
                } else {
                    a - 1
                };
                let b0 = if b < i {
                    b
                } else {
                    b - 1
                };
                assert(vs1[a] == vs0[a0]);
                assert(vs1[b] == vs0[b0]);
                if a0 == b0 {
                    assert(a < i && b > i && a == b - 1);
                    assert(false);
                }
            }
        }
    }
}

/// Sorts networks by name, lexicographically; the multiset of records is
/// unchanged.
pub fn sort_networks(networks: Vec<NetworkInfo>) -> (r: Vec<NetworkInfo>)
    ensures
        spec_networks_sorted(r@),
        r@.to_multiset() == networks@.to_multiset(),
{
    broadcast use vstd::seq_lib::group_to_multiset_ensures;

    let ghost orig = networks@;
    let mut networks = networks;
    let mut out: Vec<NetworkInfo> = Vec::new();
    let ghost mut done: int = 0;
    while networks.len() > 0
        invariant
            0 <= done <= orig.len(),
            networks@ =~= orig.skip(done),
            spec_networks_sorted(out@),
            out@.to_multiset() == orig.take(done).to_multiset(),
        decreases networks@.len(),
    {
        let x = networks.remove(0);
        proof {
            assert(x == orig[done]);
            assert(networks@ =~= orig.skip(done + 1));
            assert(orig.take(done + 1) =~= orig.take(done).push(x));
            vstd::seq_lib::to_multiset_build(orig.take(done), x);
            assert(orig.take(done + 1).to_multiset() == orig.take(done).to_multiset().insert(x));
        }
        insert_network_sorted(&mut out, x);
        proof {
            done = done + 1;
        }
    }
    proof {
        assert(orig.take(orig.len() as int) =~= orig);
    }
    out
}

/// The sort key of a volume: its name.
pub open spec fn spec_volume_key(img: VolumeInfo) -> Seq<char> {
    img.name@
}

pub open spec fn spec_volumes_sorted(s: Seq<VolumeInfo>) -> bool {
    forall|i: int, j: int|
        0 <= i < j < s.len() ==> spec_lex_le(
            spec_volume_key(#[trigger] s[i]),
            spec_volume_key(#[trigger] s[j]),
        )
}

fn volume_key(img: &VolumeInfo) -> (r: &str)
    ensures
        r@ == spec_volume_key(*img),
{
    img.name.as_str()
}

fn insert_volume_sorted(v: &mut Vec<VolumeInfo>, x: VolumeInfo)
    requires
        spec_volumes_sorted(old(v)@),
    ensures
        spec_volumes_sorted(final(v)@),
        final(v)@.to_multiset() == old(v)@.to_multiset().insert(x),
{
    broadcast use vstd::seq_lib::group_to_multiset_ensures;
    broadcast use vstd::seq_lib::to_multiset_insert;

    let ghost vs0 = v@;
    let ghost xk = spec_volume_key(x);
    let n = v.len();
    let mut i: usize = 0;
    while i < n && crate::strutil::str_le(volume_key(&v[i]), volume_key(&x))
        invariant
            n == v@.len(),
            vs0 == v@,
            i <= n,
            xk == spec_volume_key(x),
            forall|j: int| 0 <= j < i ==> spec_lex_le(spec_volume_key(#[trigger] vs0[j]), xk),
        decreases n - i,
    {
        i = i + 1;
    }
    proof {
        if i < n {
            crate::strutil::lemma_lex_total(spec_volume_key(vs0[i as int]), xk);
        }
    }
    v.insert(i, x);
    proof {
        let vs1 = v@;
        assert(vs1 =~= vs0.insert(i as int, x));
        assert forall|a: int, b: int| 0 <= a < b < vs1.len() implies spec_lex_le(
            spec_volume_key(#[trigger] vs1[a]),
            spec_volume_key(#[trigger] vs1[b]),
        ) by {
            if a == i {
                assert(vs1[b] == vs0[b - 1]);
                if b - 1 == i {
                    assert(spec_lex_le(xk, spec_volume_key(vs0[i as int])));
                } else {
                    crate::strutil::lemma_lex_le_trans(
                        xk,
                        spec_volume_key(vs0[i as int]),
                        spec_volume_key(vs0[b - 1]),
                    );
                }
            } else if b == i {
                assert(vs1[a] == vs0[a]);
            } else {
                let a0 = if a < i {
                    a
                } else {
                    a - 1
                };
                let b0 = if b < i {
                    b
                } else {
                    b - 1
                };
                assert(vs1[a] == vs0[a0]);
                assert(vs1[b] == vs0[b0]);
                if a0 == b0 {
                    assert(a < i && b > i && a == b - 1);
                    assert(false);
                }
            }
        }
    }
}

/// Sorts volumes by name, lexicographically; the multiset of records is
/// unchanged.
pub fn sort_volumes(volumes: Vec<VolumeInfo>) -> (r: Vec<VolumeInfo>)
    ensures
        spec_volumes_sorted(r@),
        r@.to_multiset() == volumes@.to_multiset(),
{
    broadcast use vstd::seq_lib::group_to_multiset_ensures;

    let ghost orig = volumes@;
    let mut volumes = volumes;
    let mut out: Vec<VolumeInfo> = Vec::new();
    let ghost mut done: int = 0;
    while volumes.len() > 0
        invariant
            0 <= done <= orig.len(),
            volumes@ =~= orig.skip(done),
            spec_volumes_sorted(out@),
            out@.to_multiset() == orig.take(done).to_multiset(),
        decreases volumes@.len(),
    {
        let x = volumes.remove(0);
        proof {
            assert(x == orig[done]);
            assert(volumes@ =~= orig.skip(done + 1));
            assert(orig.take(done + 1) =~= orig.take(done).push(x));
            vstd::seq_lib::to_multiset_build(orig.take(done), x);
            assert(orig.take(done + 1).to_multiset() == orig.take(done).to_multiset().insert(x));
        }
        insert_volume_sorted(&mut out, x);
        proof {
            done = done + 1;
        }
    }
    proof {
        assert(orig.take(orig.len() as int) =~= orig);
    }
    out
}

} // verus!