//! The JSON side of the CLI-output parser: thin trusted accessors over
//! `serde_json`, and the verified builders that turn extracted fields into
//! records, with the defined defaults for anything missing.

use vstd::prelude::*;
use vstd::string::StrSliceExecFns;
use vstd::string::StringExecFns;

use crate::records::ContainerInfo;
use crate::records::ContainerStats;
use crate::records::DockerInfo;
use crate::records::ImageInfo;
use crate::records::NetworkInfo;
use crate::records::VolumeInfo;
use crate::strutil::spec_split;
use crate::strutil::spec_trim;
use crate::strutil::split_char;
use crate::strutil::trim;
use crate::strutil::str_eq;
use crate::parse::spec_parse_size;
use crate::parse::parse_size_string;
use crate::parse::spec_decimal_milli;
use crate::parse::strip_trailing;
use crate::parse::parse_percent_milli;
use crate::parse::spec_split_io;
use crate::parse::parse_memory_usage;
use crate::parse::parse_network_io;
use crate::parse::parse_block_io;

verus! {

/// Whether a line is a well-formed JSON document in `serde_json`'s eyes; the
/// outcome depends on the text alone.
pub uninterp spec fn json_line_parses(s: Seq<char>) -> bool;

/// Relies on `serde_json::from_str::<Value>`: whether one JSON document
/// parses.
#[verifier::external_body]
fn line_parses(line: &str) -> (r: bool)
    ensures
        r == json_line_parses(line@),
{
    serde_json::from_str::<serde_json::Value>(line).is_ok()
}

/// The string under a key of a JSON document's top-level object: `None`
/// when the document does not parse, the key is absent, or the value is not
/// a string. A function of the text and the key alone.
pub uninterp spec fn line_str_field(line: Seq<char>, key: Seq<char>) -> Option<Seq<char>>;

/// Relies on `serde_json::from_str::<Value>`, `Value::get` and
/// `Value::as_str`: reads one string field out of a JSON document.
#[verifier::external_body]
fn get_line_str(line: &str, key: &str) -> (r: Option<String>)
    ensures
        line_str_field(line@, key@) == (match r {
            Some(s) => Some(s@),
            None => None::<Seq<char>>,
        }),
{
    serde_json::from_str::<serde_json::Value>(line)
        .ok()
        .and_then(|v| v.get(key).and_then(|x| x.as_str()).map(|s| s.to_string()))
}

/// The whole number under a key of a JSON document's top-level object, when
/// there is one. A function of the text and the key alone.
pub uninterp spec fn line_i64_field(line: Seq<char>, key: Seq<char>) -> Option<i64>;

/// Relies on `serde_json::from_str::<Value>`, `Value::get` and
/// `Value::as_i64`: reads one integer field out of a JSON document.
#[verifier::external_body]
fn get_line_i64(line: &str, key: &str) -> (r: Option<i64>)
    ensures
        r == line_i64_field(line@, key@),
{
    serde_json::from_str::<serde_json::Value>(line).ok().and_then(|v| v.get(key).and_then(|x| x.as_i64()))
}

/// The `PublicPort` entries of a document's `Ports` array, one per array
/// element (`None` where an element carries no number); empty when there is
/// no such array. A function of the text alone.
pub uninterp spec fn line_public_ports(line: Seq<char>) -> Seq<Option<i64>>;

/// Relies on `serde_json::from_str::<Value>`, `Value::get`, `Value::as_array`
/// and `Value::as_i64`: reads each `Ports` element's `PublicPort`.
#[verifier::external_body]
fn get_line_public_ports(line: &str) -> (r: Vec<Option<i64>>)
    ensures
        r@ == line_public_ports(line@),
{
    serde_json::from_str::<serde_json::Value>(line)
        .ok()
        .and_then(|v| {
            v.get("Ports").and_then(|x| x.as_array()).map(
                |arr| arr.iter().map(|p| p.get("PublicPort").and_then(|x| x.as_i64())).collect(),
            )
        })
        .unwrap_or_default()
}

/// How many entries the first inspect element's `Containers` object holds;
/// `None` when the document is not an array whose first element carries such
/// an object. A function of the text alone.
pub uninterp spec fn inspect_containers_count(doc: Seq<char>) -> Option<usize>;

/// Relies on `serde_json::from_str::<Vec<Value>>`, `Value::get` and
/// `Value::as_object`: reads the size of the `Containers` object of the
/// first element of an inspect document.
#[verifier::external_body]
fn inspect_containers_len(output: &str) -> (r: Option<usize>)
    ensures
        r == inspect_containers_count(output@),
{
    serde_json::from_str::<Vec<serde_json::Value>>(output)
        .ok()
        .and_then(|arr| arr.into_iter().next())
        .and_then(|v| v.get("Containers").and_then(|c| c.as_object()).map(|o| o.len()))
}

/// The first inspect element's `RefCount` number, when the document carries
/// one. A function of the text alone.
pub uninterp spec fn inspect_ref_count(doc: Seq<char>) -> Option<i64>;

/// Relies on `serde_json::from_str::<Vec<Value>>`, `Value::get` and
/// `Value::as_i64`: reads the `RefCount` of the first element of an inspect
/// document.
#[verifier::external_body]
fn inspect_volume_ref_count(output: &str) -> (r: Option<i64>)
    ensures
        r == inspect_ref_count(output@),
{
    serde_json::from_str::<Vec<serde_json::Value>>(output)
        .ok()
        .and_then(|arr| arr.into_iter().next())
        .and_then(|v| v.get("RefCount").and_then(|c| c.as_i64()))
}

/// The first inspect element's `UsageData.RefCount` number, when the
/// document carries one. A function of the text alone.
pub uninterp spec fn inspect_usage_ref_count(doc: Seq<char>) -> Option<i64>;

/// Relies on `serde_json::from_str::<Vec<Value>>`, `Value::get` and
/// `Value::as_i64`: reads the nested `UsageData.RefCount` of the first
/// element of an inspect document.
#[verifier::external_body]
fn inspect_volume_usage_ref_count(output: &str) -> (r: Option<i64>)
    ensures
        r == inspect_usage_ref_count(output@),
{
    serde_json::from_str::<Vec<serde_json::Value>>(output)
        .ok()
        .and_then(|arr| arr.into_iter().next())
        .and_then(|v| v.get("UsageData").and_then(|u| u.get("RefCount")).and_then(|c| c.as_i64()))
}

/// Whether `chrono` accepts a CLI `created` timestamp in the
/// `%Y-%m-%d %H:%M:%S %z` format; a function of the text alone.
pub uninterp spec fn cli_datetime_ok(s: Seq<char>) -> bool;

/// The epoch seconds that `chrono` reads out of a CLI `created` timestamp;
/// a function of the text alone, meaningful when `cli_datetime_ok` holds.
pub uninterp spec fn cli_datetime_epoch(s: Seq<char>) -> i64;

/// Relies on `chrono::DateTime::parse_from_str` with the CLI listing format
/// `%Y-%m-%d %H:%M:%S %z`, and on `DateTime::timestamp`.
#[verifier::external_body]
pub fn parse_cli_datetime(s: &str) -> (r: Option<i64>)
    ensures
        r is Some <==> cli_datetime_ok(s@),
        r is Some ==> r->0 == cli_datetime_epoch(s@),
{
    chrono::DateTime::parse_from_str(s, "%Y-%m-%d %H:%M:%S %z").ok().map(|d| d.timestamp())
}

/// The fields of one container listing line, as extracted; `None` stands for
/// a missing or differently typed field.
#[derive(Debug)]
pub struct RawContainer {
    pub id: Option<String>,
    pub names: Option<String>,
    pub image: Option<String>,
    pub state: Option<String>,
    pub status: Option<String>,
    pub created: Option<i64>,
    pub ports: Option<String>,
    pub running_for: Option<String>,
    pub ports_list: Vec<i32>,
}

/// Leading occurrences of a character removed.
pub open spec fn strip_leading(s: Seq<char>, c: char) -> Seq<char>
    decreases s.len(),
{
    if s.len() > 0 && s[0] == c {
        strip_leading(s.drop_first(), c)
    } else {
        s
    }
}

proof fn lemma_strip_leading_skip(s: Seq<char>, c: char, a: int)
    requires
        0 <= a <= s.len(),
        forall|j: int| 0 <= j < a ==> s[j] == c,
        a < s.len() ==> s[a] != c,
    ensures
        strip_leading(s, c) == s.skip(a),
    decreases s.len(),
{
    if s.len() > 0 && s[0] == c {
        assert(a > 0);
        assert(s.drop_first() =~= s.skip(1));
        assert forall|j: int| 0 <= j < a - 1 implies s.skip(1)[j] == c by {
            assert(s.skip(1)[j] == s[j + 1]);
        }
        if a - 1 < s.skip(1).len() {
            assert(s.skip(1)[a - 1] == s[a]);
        }
        lemma_strip_leading_skip(s.skip(1), c, a - 1);
        assert(s.skip(1).skip(a - 1) =~= s.skip(a));
    } else {
        assert(s.skip(0) =~= s);
    }
}

/// Strips every leading slash, as container names are reported with one.
pub fn strip_leading_slashes(s: &str) -> (r: &str)
    ensures
        r@ == strip_leading(s@, '/'),
{
    let len = s.unicode_len();
    let mut a: usize = 0;
    while a < len && s.get_char(a) == '/'
        invariant
            len == s@.len(),
            a <= len,
            forall|j: int| 0 <= j < a ==> s@[j] == '/',
        decreases len - a,
    {
        a = a + 1;
    }
    proof {
        lemma_strip_leading_skip(s@, '/', a as int);
    }
    let r = s.substring_char(a, len);
    proof {
        assert(r@ =~= s@.skip(a as int));
    }
    r
}

fn str_or_empty(o: Option<String>) -> (r: String)
    ensures
        r@ == match o {
            Some(s) => s@,
            None => Seq::<char>::empty(),
        },
{
    match o {
        Some(s) => s,
        None => String::new(),
    }
}

/// Builds a container record from extracted fields, applying the defined
/// defaults: empty strings, zero timestamps, and the name without its
/// leading slashes.
pub fn container_of_raw(raw: RawContainer) -> (r: ContainerInfo)
    ensures
        r.id@ == (match raw.id {
            Some(s) => s@,
            None => Seq::<char>::empty(),
        }),
        r.name@ == strip_leading(
            match raw.names {
                Some(s) => s@,
                None => Seq::<char>::empty(),
            },
            '/',
        ),
        r.image@ == (match raw.image {
            Some(s) => s@,
            None => Seq::<char>::empty(),
        }),
        r.state@ == (match raw.state {
            Some(s) => s@,
            None => Seq::<char>::empty(),
        }),
        r.status@ == (match raw.status {
            Some(s) => s@,
            None => Seq::<char>::empty(),
        }),
        r.ports@ == (match raw.ports {
            Some(s) => s@,
            None => Seq::<char>::empty(),
        }),
        r.running_for@ == (match raw.running_for {
            Some(s) => s@,
            None => Seq::<char>::empty(),
        }),
        r.created == (match raw.created {
            Some(c) => c,
            None => 0,
        }),
        r.ports_list == raw.ports_list,
{
    let RawContainer { id, names, image, state, status, created, ports, running_for, ports_list } =
        raw;
    let name_raw = str_or_empty(names);
    let name = strip_leading_slashes(name_raw.as_str()).to_owned();
    ContainerInfo {
        id: str_or_empty(id),
        name,
        image: str_or_empty(image),
        state: str_or_empty(state),
        status: str_or_empty(status),
        ports: str_or_empty(ports),
        ports_list,
        created: match created {
            Some(c) => c,
            None => 0,
        },
        running_for: str_or_empty(running_for),
    }
}

/// The text of an optional field, with the empty string standing in for a
/// missing one.
pub open spec fn spec_field_or_empty(o: Option<Seq<char>>) -> Seq<char> {
    match o {
        Some(s) => s,
        None => Seq::<char>::empty(),
    }
}

/// The lines of a listing that produce records: non-blank and parseable.
pub open spec fn spec_kept_lines(lines: Seq<Seq<char>>) -> Seq<Seq<char>> {
    lines.filter(|l: Seq<char>| spec_trim(l).len() > 0 && json_line_parses(l))
}

/// The published ports kept from the raw per-element readings: the ones
/// present and within the signed 32-bit range, in order.
pub open spec fn spec_ports_list(s: Seq<Option<i64>>) -> Seq<i32>
    decreases s.len(),
{
    if s.len() == 0 {
        Seq::empty()
    } else {
        let rest = spec_ports_list(s.drop_last());
        match s.last() {
            Some(p) => if 0 <= p <= 0x7FFF_FFFF {
                rest.push(p as i32)
            } else {
                rest
            },
            None => rest,
        }
    }
}

/// Every field of a container record, pinned to the listing line it came
/// from: the named lookups with the defined defaults, the name stripped of
/// leading slashes, and the published ports in range.
pub open spec fn spec_container_of_line(line: Seq<char>, c: ContainerInfo) -> bool {
    &&& c.id@ == spec_field_or_empty(line_str_field(line, "Id"@))
    &&& c.name@ == strip_leading(spec_field_or_empty(line_str_field(line, "Names"@)), '/')
    &&& c.image@ == spec_field_or_empty(line_str_field(line, "Image"@))
    &&& c.state@ == spec_field_or_empty(line_str_field(line, "State"@))
    &&& c.status@ == spec_field_or_empty(line_str_field(line, "Status"@))
    &&& c.ports@ == spec_field_or_empty(line_str_field(line, "Ports"@))
    &&& c.running_for@ == spec_field_or_empty(line_str_field(line, "RunningFor"@))
    &&& c.created == (match line_i64_field(line, "Created"@) {
        Some(v) => v,
        None => 0,
    })
    &&& c.ports_list@ == spec_ports_list(line_public_ports(line))
}

/// Extracts one container listing line into its raw fields, each pinned to
/// the corresponding named lookup of the line text.
pub fn extract_container(line: &str) -> (raw: RawContainer)
    ensures
        line_str_field(line@, "Id"@) == (match raw.id {
            Some(s) => Some(s@),
            None => None::<Seq<char>>,
        }),
        line_str_field(line@, "Names"@) == (match raw.names {
            Some(s) => Some(s@),
            None => None::<Seq<char>>,
        }),
        line_str_field(line@, "Image"@) == (match raw.image {
            Some(s) => Some(s@),
            None => None::<Seq<char>>,
        }),
        line_str_field(line@, "State"@) == (match raw.state {
            Some(s) => Some(s@),
            None => None::<Seq<char>>,
        }),
        line_str_field(line@, "Status"@) == (match raw.status {
            Some(s) => Some(s@),
            None => None::<Seq<char>>,
        }),
        line_str_field(line@, "Ports"@) == (match raw.ports {
            Some(s) => Some(s@),
            None => None::<Seq<char>>,
        }),
        line_str_field(line@, "RunningFor"@) == (match raw.running_for {
            Some(s) => Some(s@),
            None => None::<Seq<char>>,
        }),
        raw.created == line_i64_field(line@, "Created"@),
        raw.ports_list@ == spec_ports_list(line_public_ports(line@)),
{
    let raw_ports = get_line_public_ports(line);
    let ghost pv = line_public_ports(line@);
    let mut ports_list: Vec<i32> = Vec::new();
    let mut i: usize = 0;
    proof {
        assert(pv.take(0) =~= Seq::<Option<i64>>::empty());
    }
    while i < raw_ports.len()
        invariant
            raw_ports@ == pv,
            i <= pv.len(),
            ports_list@ == spec_ports_list(pv.take(i as int)),
        decreases raw_ports@.len() - i,
    {
        proof {
            assert(pv.take(i as int + 1).drop_last() =~= pv.take(i as int));
            assert(pv.take(i as int + 1).last() == pv[i as int]);
        }
        match raw_ports[i] {
            Some(p) => {
                if 0 <= p && p <= 0x7FFF_FFFF {
                    ports_list.push(p as i32);
                }
            },
            None => {},
        }
        i = i + 1;
    }
    proof {
        assert(pv.take(pv.len() as int) =~= pv);
    }
    RawContainer {
        id: get_line_str(line, "Id"),
        names: get_line_str(line, "Names"),
        image: get_line_str(line, "Image"),
        state: get_line_str(line, "State"),
        status: get_line_str(line, "Status"),
        created: get_line_i64(line, "Created"),
        ports: get_line_str(line, "Ports"),
        running_for: get_line_str(line, "RunningFor"),
        ports_list,
    }
}

/// Parses a line-delimited container listing: blank lines are skipped,
/// malformed lines are dropped, and each remaining line yields one record
/// whose every field is pinned to that line.
pub fn parse_containers_from_json(json_output: &str) -> (r: Vec<ContainerInfo>)
    ensures
        ({
            let kept = spec_kept_lines(spec_split(json_output@, '\n'));
            &&& r@.len() == kept.len()
            &&& (forall|k: int|
                0 <= k < r@.len() ==> spec_container_of_line(kept[k], #[trigger] r@[k]))
        }),
{
    broadcast use vstd::seq_lib::group_filter_ensures;

    let ghost pred = |l: Seq<char>| spec_trim(l).len() > 0 && json_line_parses(l);
    let lines = split_char(json_output, '\n');
    let ghost lv = spec_split(json_output@, '\n');
    let mut out: Vec<ContainerInfo> = Vec::new();
    let mut i: usize = 0;
    proof {
        reveal(Seq::filter);
        assert(lv.take(0) =~= Seq::<Seq<char>>::empty());
    }
    while i < lines.len()
        invariant
            crate::strutil::views(lines@) == lv,
            i <= lines@.len(),
            pred == (|l: Seq<char>| spec_trim(l).len() > 0 && json_line_parses(l)),
            out@.len() == lv.take(i as int).filter(pred).len(),
            forall|k: int|
                0 <= k < out@.len() ==> spec_container_of_line(
                    lv.take(i as int).filter(pred)[k],
                    #[trigger] out@[k],
                ),
        decreases lines@.len() - i,
    {
        proof {
            reveal(Seq::filter);
            assert(lines@[i as int]@ == lv[i as int]);
            assert(lv.take(i as int + 1).drop_last() =~= lv.take(i as int));
            assert(lv.take(i as int + 1).last() == lv[i as int]);
        }
        let line: &str = lines[i].as_str();
        let ghost kept_before = lv.take(i as int).filter(pred);
        if trim(line).unicode_len() > 0 && line_parses(line) {
            let raw = extract_container(line);
            let rec = container_of_raw(raw);
            proof {
                assert(spec_container_of_line(lv[i as int], rec));
            }
            out.push(rec);
            proof {
                assert(lv.take(i as int + 1).filter(pred) =~= kept_before.push(lv[i as int]));
            }
        } else {
            proof {
                assert(!pred(lv[i as int]));
                assert(lv.take(i as int + 1).filter(pred) =~= kept_before);
            }
        }
        i = i + 1;
    }
    proof {
        assert(lv.take(lv.len() as int) =~= lv);
    }
    out
}

/// Builds an image record from the CLI listing fields: the single
/// `repository:tag` pair (with `<none>` defaults), the creation time as read
/// by `chrono` (0 when unreadable), and the size string parsed into bytes.
pub fn image_of_cli_fields(
    id: Option<String>,
    repository: Option<String>,
    tag: Option<String>,
    created_at: Option<String>,
    size_str: Option<String>,
) -> (r: ImageInfo)
    ensures
        r.id@ == (match id {
            Some(s) => s@,
            None => Seq::<char>::empty(),
        }),
        r.tags@.len() == 1,
        r.tags@[0]@ == (match repository {
            Some(s) => s@,
            None => "<none>"@,
        }) + seq![':'] + (match tag {
            Some(s) => s@,
            None => "<none>"@,
        }),
        r.created == (match created_at {
            Some(s) => if cli_datetime_ok(s@) {
                cli_datetime_epoch(s@)
            } else {
                0
            },
            None => 0,
        }),
        r.size == (if spec_parse_size(
            match size_str {
                Some(s) => s@,
                None => "0B"@,
            },
        ) > i64::MAX {
            i64::MAX
        } else {
            spec_parse_size(
                match size_str {
                    Some(s) => s@,
                    None => "0B"@,
                },
            ) as i64
        }),
        r.in_use == false,
{
    let mut tag_full: String = match repository {
        Some(s) => s,
        None => "<none>".to_owned(),
    };
    tag_full.append(":");
    proof {
        reveal_strlit(":");
        assert(":"@ =~= seq![':']);
    }
    match tag {
        Some(s) => tag_full.append(s.as_str()),
        None => tag_full.append("<none>"),
    }
    let created: i64 = match created_at {
        Some(s) => match parse_cli_datetime(s.as_str()) {
            Some(t) => t,
            None => 0,
        },
        None => 0,
    };
    let size_u = match size_str {
        Some(s) => parse_size_string(s.as_str()),
        None => parse_size_string("0B"),
    };
    let size: i64 = if size_u > 0x7FFF_FFFF_FFFF_FFFFu64 {
        i64::MAX
    } else {
        size_u as i64
    };
    let mut tags: Vec<String> = Vec::new();
    tags.push(tag_full);
    ImageInfo {
        id: match id {
            Some(s) => s,
            None => String::new(),
        },
        tags,
        created,
        size,
        in_use: false,
    }
}

/// The tag side of a `repository:tag` pair, with `<none>` standing in for
/// a missing field.
pub open spec fn spec_tag_part(o: Option<Seq<char>>) -> Seq<char> {
    match o {
        Some(s) => s,
        None => "<none>"@,
    }
}

/// Every field of an image record, pinned to the listing line it came from.
pub open spec fn spec_image_of_line(line: Seq<char>, r: ImageInfo) -> bool {
    &&& r.id@ == spec_field_or_empty(line_str_field(line, "ID"@))
    &&& r.tags@.len() == 1
    &&& r.tags@[0]@ == spec_tag_part(line_str_field(line, "Repository"@)) + seq![':']
        + spec_tag_part(line_str_field(line, "Tag"@))
    &&& r.created == (match line_str_field(line, "CreatedAt"@) {
        Some(s) => if cli_datetime_ok(s) {
            cli_datetime_epoch(s)
        } else {
            0
        },
        None => 0,
    })
    &&& r.size == ({
        let sz = spec_parse_size(
            match line_str_field(line, "VirtualSize"@) {
                Some(s) => s,
                None => "0B"@,
            },
        );
        if sz > i64::MAX {
            i64::MAX
        } else {
            sz as i64
        }
    })
    &&& r.in_use == false
}

/// Parses a line-delimited CLI image listing: one record per kept line,
/// every field pinned to that line.
pub fn parse_images_from_json(json_output: &str) -> (r: Vec<ImageInfo>)
    ensures
        ({
            let kept = spec_kept_lines(spec_split(json_output@, '\n'));
            &&& r@.len() == kept.len()
            &&& (forall|k: int|
                0 <= k < r@.len() ==> spec_image_of_line(kept[k], #[trigger] r@[k]))
        }),
{
    broadcast use vstd::seq_lib::group_filter_ensures;

    let ghost pred = |l: Seq<char>| spec_trim(l).len() > 0 && json_line_parses(l);
    let lines = split_char(json_output, '\n');
    let ghost lv = spec_split(json_output@, '\n');
    let mut out: Vec<ImageInfo> = Vec::new();
    let mut i: usize = 0;
    proof {
        reveal(Seq::filter);
        assert(lv.take(0) =~= Seq::<Seq<char>>::empty());
    }
    while i < lines.len()
        invariant
            crate::strutil::views(lines@) == lv,
            i <= lines@.len(),
            pred == (|l: Seq<char>| spec_trim(l).len() > 0 && json_line_parses(l)),
            out@.len() == lv.take(i as int).filter(pred).len(),
            forall|k: int|
                0 <= k < out@.len() ==> spec_image_of_line(
                    lv.take(i as int).filter(pred)[k],
                    #[trigger] out@[k],
                ),
        decreases lines@.len() - i,
    {
        proof {
            reveal(Seq::filter);
            assert(lines@[i as int]@ == lv[i as int]);
            assert(lv.take(i as int + 1).drop_last() =~= lv.take(i as int));
            assert(lv.take(i as int + 1).last() == lv[i as int]);
        }
        let line: &str = lines[i].as_str();
        let ghost kept_before = lv.take(i as int).filter(pred);
        if trim(line).unicode_len() > 0 && line_parses(line) {
            let img = image_of_cli_fields(
                get_line_str(line, "ID"),
                get_line_str(line, "Repository"),
                get_line_str(line, "Tag"),
                get_line_str(line, "CreatedAt"),
                get_line_str(line, "VirtualSize"),
            );
            proof {
                assert(spec_image_of_line(lv[i as int], img));
            }
            out.push(img);
            proof {
                assert(lv.take(i as int + 1).filter(pred) =~= kept_before.push(lv[i as int]));
            }
        } else {
            proof {
                assert(!pred(lv[i as int]));
                assert(lv.take(i as int + 1).filter(pred) =~= kept_before);
            }
        }
        i = i + 1;
    }
    proof {
        assert(lv.take(lv.len() as int) =~= lv);
    }
    out
}

/// Builds a network record from the CLI listing fields: the system networks
/// are `bridge`, `host` and `none`; inspect-derived fields start at their
/// defaults.
pub fn network_of_cli_fields(
    id: Option<String>,
    name: Option<String>,
    driver: Option<String>,
    scope: Option<String>,
) -> (r: NetworkInfo)
    ensures
        r.id@ == (match id {
            Some(s) => s@,
            None => Seq::<char>::empty(),
        }),
        r.name@ == (match name {
            Some(s) => s@,
            None => Seq::<char>::empty(),
        }),
        r.driver@ == (match driver {
            Some(s) => s@,
            None => Seq::<char>::empty(),
        }),
        r.scope@ == (match scope {
            Some(s) => s@,
            None => Seq::<char>::empty(),
        }),
        r.created@ == Seq::<char>::empty(),
        r.containers_count == 0,
        r.is_system == (r.name@ == "bridge"@ || r.name@ == "host"@ || r.name@ == "none"@),
        r.in_use == false,
{
    let name_s = str_or_empty(name);
    let is_system = str_eq(name_s.as_str(), "bridge") || str_eq(name_s.as_str(), "host")
        || str_eq(name_s.as_str(), "none");
    NetworkInfo {
        id: str_or_empty(id),
        name: name_s,
        driver: str_or_empty(driver),
        scope: str_or_empty(scope),
        created: String::new(),
        containers_count: 0,
        is_system,
        in_use: false,
    }
}

/// Every field of a network record, pinned to the listing line it came
/// from.
pub open spec fn spec_network_of_line(line: Seq<char>, r: NetworkInfo) -> bool {
    &&& r.id@ == spec_field_or_empty(line_str_field(line, "ID"@))
    &&& r.name@ == spec_field_or_empty(line_str_field(line, "Name"@))
    &&& r.driver@ == spec_field_or_empty(line_str_field(line, "Driver"@))
    &&& r.scope@ == spec_field_or_empty(line_str_field(line, "Scope"@))
    &&& r.created@ == Seq::<char>::empty()
    &&& r.containers_count == 0
    &&& r.is_system == (r.name@ == "bridge"@ || r.name@ == "host"@ || r.name@ == "none"@)
    &&& r.in_use == false
}

/// Parses a line-delimited CLI network listing: one record per kept line,
/// every field pinned to that line.
pub fn parse_networks_from_json(json_output: &str) -> (r: Vec<NetworkInfo>)
    ensures
        ({
            let kept = spec_kept_lines(spec_split(json_output@, '\n'));
            &&& r@.len() == kept.len()
            &&& (forall|k: int|
                0 <= k < r@.len() ==> spec_network_of_line(kept[k], #[trigger] r@[k]))
        }),
{
    broadcast use vstd::seq_lib::group_filter_ensures;

    let ghost pred = |l: Seq<char>| spec_trim(l).len() > 0 && json_line_parses(l);
    let lines = split_char(json_output, '\n');
    let ghost lv = spec_split(json_output@, '\n');
    let mut out: Vec<NetworkInfo> = Vec::new();
    let mut i: usize = 0;
    proof {
        reveal(Seq::filter);
        assert(lv.take(0) =~= Seq::<Seq<char>>::empty());
    }
    while i < lines.len()
        invariant
            crate::strutil::views(lines@) == lv,
            i <= lines@.len(),
            pred == (|l: Seq<char>| spec_trim(l).len() > 0 && json_line_parses(l)),
            out@.len() == lv.take(i as int).filter(pred).len(),
            forall|k: int|
                0 <= k < out@.len() ==> spec_network_of_line(
                    lv.take(i as int).filter(pred)[k],
                    #[trigger] out@[k],
                ),
        decreases lines@.len() - i,
    {
        proof {
            reveal(Seq::filter);
            assert(lines@[i as int]@ == lv[i as int]);
            assert(lv.take(i as int + 1).drop_last() =~= lv.take(i as int));
            assert(lv.take(i as int + 1).last() == lv[i as int]);
        }
        let line: &str = lines[i].as_str();
        let ghost kept_before = lv.take(i as int).filter(pred);
        if trim(line).unicode_len() > 0 && line_parses(line) {
            let rec = network_of_cli_fields(
                get_line_str(line, "ID"),
                get_line_str(line, "Name"),
                get_line_str(line, "Driver"),
                get_line_str(line, "Scope"),
            );
            proof {
                assert(spec_network_of_line(lv[i as int], rec));
            }
            out.push(rec);
            proof {
                assert(lv.take(i as int + 1).filter(pred) =~= kept_before.push(lv[i as int]));
            }
        } else {
            proof {
                assert(!pred(lv[i as int]));
                assert(lv.take(i as int + 1).filter(pred) =~= kept_before);
            }
        }
        i = i + 1;
    }
    proof {
        assert(lv.take(lv.len() as int) =~= lv);
    }
    out
}

/// Builds a volume record from the CLI listing fields; inspect-derived
/// fields start at their defaults.
pub fn volume_of_cli_fields(name: Option<String>, driver: Option<String>) -> (r: VolumeInfo)
    ensures
        r.name@ == (match name {
            Some(s) => s@,
            None => Seq::<char>::empty(),
        }),
        r.driver@ == (match driver {
            Some(s) => s@,
            None => Seq::<char>::empty(),
        }),
        r.mountpoint@ == Seq::<char>::empty(),
        r.created@ == Seq::<char>::empty(),
        r.containers_count == 0,
        r.in_use == false,
{
    VolumeInfo {
        name: str_or_empty(name),
        driver: str_or_empty(driver),
        mountpoint: String::new(),
        created: String::new(),
        containers_count: 0,
        in_use: false,
    }
}

/// Every field of a volume record, pinned to the listing line it came
/// from.
pub open spec fn spec_volume_of_line(line: Seq<char>, r: VolumeInfo) -> bool {
    &&& r.name@ == spec_field_or_empty(line_str_field(line, "Name"@))
    &&& r.driver@ == spec_field_or_empty(line_str_field(line, "Driver"@))
    &&& r.mountpoint@ == Seq::<char>::empty()
    &&& r.created@ == Seq::<char>::empty()
    &&& r.containers_count == 0
    &&& r.in_use == false
}

/// Parses a line-delimited CLI volume listing: one record per kept line,
/// every field pinned to that line.
pub fn parse_volumes_from_json(json_output: &str) -> (r: Vec<VolumeInfo>)
    ensures
        ({
            let kept = spec_kept_lines(spec_split(json_output@, '\n'));
            &&& r@.len() == kept.len()
            &&& (forall|k: int|
                0 <= k < r@.len() ==> spec_volume_of_line(kept[k], #[trigger] r@[k]))
        }),
{
    broadcast use vstd::seq_lib::group_filter_ensures;

    let ghost pred = |l: Seq<char>| spec_trim(l).len() > 0 && json_line_parses(l);
    let lines = split_char(json_output, '\n');
    let ghost lv = spec_split(json_output@, '\n');
    let mut out: Vec<VolumeInfo> = Vec::new();
    let mut i: usize = 0;
    proof {
        reveal(Seq::filter);
        assert(lv.take(0) =~= Seq::<Seq<char>>::empty());
    }
    while i < lines.len()
        invariant
            crate::strutil::views(lines@) == lv,
            i <= lines@.len(),
            pred == (|l: Seq<char>| spec_trim(l).len() > 0 && json_line_parses(l)),
            out@.len() == lv.take(i as int).filter(pred).len(),
            forall|k: int|
                0 <= k < out@.len() ==> spec_volume_of_line(
                    lv.take(i as int).filter(pred)[k],
                    #[trigger] out@[k],
                ),
        decreases lines@.len() - i,
    {
        proof {
            reveal(Seq::filter);
            assert(lines@[i as int]@ == lv[i as int]);
            assert(lv.take(i as int + 1).drop_last() =~= lv.take(i as int));
            assert(lv.take(i as int + 1).last() == lv[i as int]);
        }
        let line: &str = lines[i].as_str();
        let ghost kept_before = lv.take(i as int).filter(pred);
        if trim(line).unicode_len() > 0 && line_parses(line) {
            let rec = volume_of_cli_fields(
                get_line_str(line, "Name"),
                get_line_str(line, "Driver"),
            );
            proof {
                assert(spec_volume_of_line(lv[i as int], rec));
            }
            out.push(rec);
            proof {
                assert(lv.take(i as int + 1).filter(pred) =~= kept_before.push(lv[i as int]));
            }
        } else {
            proof {
                assert(!pred(lv[i as int]));
                assert(lv.take(i as int + 1).filter(pred) =~= kept_before);
            }
        }
        i = i + 1;
    }
    proof {
        assert(lv.take(lv.len() as int) =~= lv);
    }
    out
}

/// Builds the daemon summary from `docker info --format json` fields, with
/// zeros and empty strings for anything missing.
pub fn docker_info_of_fields(
    version: Option<String>,
    architecture: Option<String>,
    containers: Option<i64>,
    containers_running: Option<i64>,
    containers_paused: Option<i64>,
    containers_stopped: Option<i64>,
    images: Option<i64>,
) -> (r: DockerInfo)
    ensures
        r.version@ == (match version {
            Some(s) => s@,
            None => Seq::<char>::empty(),
        }),
        r.architecture@ == (match architecture {
            Some(s) => s@,
            None => Seq::<char>::empty(),
        }),
        r.containers == (match containers {
            Some(c) => c,
            None => 0,
        }),
        r.containers_running == (match containers_running {
            Some(c) => c,
            None => 0,
        }),
        r.containers_paused == (match containers_paused {
            Some(c) => c,
            None => 0,
        }),
        r.containers_stopped == (match containers_stopped {
            Some(c) => c,
            None => 0,
        }),
        r.images == (match images {
            Some(c) => c,
            None => 0,
        }),
{
    DockerInfo {
        version: str_or_empty(version),
        containers: match containers {
            Some(c) => c,
            None => 0,
        },
        containers_paused: match containers_paused {
            Some(c) => c,
            None => 0,
        },
        containers_running: match containers_running {
            Some(c) => c,
            None => 0,
        },
        containers_stopped: match containers_stopped {
            Some(c) => c,
            None => 0,
        },
        images: match images {
            Some(c) => c,
            None => 0,
        },
        architecture: str_or_empty(architecture),
    }
}

/// The number of an optional count field, zero when missing.
pub open spec fn spec_count_or_zero(o: Option<i64>) -> i64 {
    match o {
        Some(v) => v,
        None => 0,
    }
}

/// Parses `docker info --format json` output into the daemon summary:
/// `None` exactly when the document is malformed, every field pinned to the
/// document otherwise.
pub fn parse_docker_info(output: &str) -> (r: Option<DockerInfo>)
    ensures
        r is Some <==> json_line_parses(output@),
        r matches Some(info) ==> {
            &&& info.version@ == spec_field_or_empty(line_str_field(output@, "ServerVersion"@))
            &&& info.architecture@ == spec_field_or_empty(
                line_str_field(output@, "Architecture"@),
            )
            &&& info.containers == spec_count_or_zero(line_i64_field(output@, "Containers"@))
            &&& info.containers_running == spec_count_or_zero(
                line_i64_field(output@, "ContainersRunning"@),
            )
            &&& info.containers_paused == spec_count_or_zero(
                line_i64_field(output@, "ContainersPaused"@),
            )
            &&& info.containers_stopped == spec_count_or_zero(
                line_i64_field(output@, "ContainersStopped"@),
            )
            &&& info.images == spec_count_or_zero(line_i64_field(output@, "Images"@))
        },
{
    if line_parses(output) {
        Some(
            docker_info_of_fields(
                get_line_str(output, "ServerVersion"),
                get_line_str(output, "Architecture"),
                get_line_i64(output, "Containers"),
                get_line_i64(output, "ContainersRunning"),
                get_line_i64(output, "ContainersPaused"),
                get_line_i64(output, "ContainersStopped"),
                get_line_i64(output, "Images"),
            ),
        )
    } else {
        None
    }
}

/// Builds one per-container statistics row from the CLI stats fields: the
/// percentage and the three `x / y` byte pairs are parsed exactly by the
/// size-string rules, and the CLI placeholder `--` reads as zero.
pub fn cli_stats_row(
    id: String,
    name: String,
    cpu_perc: Option<String>,
    mem_usage: Option<String>,
    net_io: Option<String>,
    block_io: Option<String>,
) -> (r: ContainerStats)
    ensures
        r.id == id,
        r.name == name,
        r.cpu_percent_milli == spec_decimal_milli(
            strip_trailing(
                match cpu_perc {
                    Some(s) => s@,
                    None => "0%"@,
                },
                '%',
            ),
        ),
        ({
            let pair = spec_split_io(
                match mem_usage {
                    Some(s) => s@,
                    None => "0B / 0B"@,
                },
            );
            r.memory_usage == pair.0 && r.memory_limit == pair.1
                && r.memory_percent_milli == crate::manager::spec_percent_milli(pair.0, pair.1)
        }),
        ({
            let pair = spec_split_io(
                match net_io {
                    Some(s) => s@,
                    None => "0B / 0B"@,
                },
            );
            r.network_rx == pair.0 && r.network_tx == pair.1
        }),
        ({
            let pair = spec_split_io(
                match block_io {
                    Some(s) => s@,
                    None => "0B / 0B"@,
                },
            );
            r.block_read == pair.0 && r.block_write == pair.1
        }),
{
    let cpu = match cpu_perc {
        Some(s) => parse_percent_milli(s.as_str()),
        None => parse_percent_milli("0%"),
    };
    let (mu, ml) = match mem_usage {
        Some(s) => parse_memory_usage(s.as_str()),
        None => parse_memory_usage("0B / 0B"),
    };
    let (rx, tx) = match net_io {
        Some(s) => parse_network_io(s.as_str()),
        None => parse_network_io("0B / 0B"),
    };
    let (br, bw) = match block_io {
        Some(s) => parse_block_io(s.as_str()),
        None => parse_block_io("0B / 0B"),
    };
    let mp = crate::manager::percent_milli(mu, ml);
    ContainerStats {
        id,
        name,
        cpu_percent_milli: cpu,
        memory_usage: mu,
        memory_limit: ml,
        memory_percent_milli: mp,
        network_rx: rx,
        network_tx: tx,
        block_read: br,
        block_write: bw,
    }
}

/// Extracts the four display fields of one `docker stats --format json`
/// object and builds the statistics row: `None` exactly when the trimmed
/// document is malformed, every figure pinned to the document otherwise.
pub fn stats_row_from_json(id: String, name: String, output: &str) -> (r: Option<ContainerStats>)
    ensures
        r is Some <==> json_line_parses(spec_trim(output@)),
        r matches Some(row) ==> ({
            let t = spec_trim(output@);
            &&& row.id == id
            &&& row.name == name
            &&& row.cpu_percent_milli == spec_decimal_milli(
                strip_trailing(
                    match line_str_field(t, "CPUPerc"@) {
                        Some(s) => s,
                        None => "0%"@,
                    },
                    '%',
                ),
            )
            &&& ({
                let pair = spec_split_io(
                    match line_str_field(t, "MemUsage"@) {
                        Some(s) => s,
                        None => "0B / 0B"@,
                    },
                );
                row.memory_usage == pair.0 && row.memory_limit == pair.1
                    && row.memory_percent_milli == crate::manager::spec_percent_milli(
                    pair.0,
                    pair.1,
                )
            })
            &&& ({
                let pair = spec_split_io(
                    match line_str_field(t, "NetIO"@) {
                        Some(s) => s,
                        None => "0B / 0B"@,
                    },
                );
                row.network_rx == pair.0 && row.network_tx == pair.1
            })
            &&& ({
                let pair = spec_split_io(
                    match line_str_field(t, "BlockIO"@) {
                        Some(s) => s,
                        None => "0B / 0B"@,
                    },
                );
                row.block_read == pair.0 && row.block_write == pair.1
            })
        }),
{
    let t = trim(output);
    if line_parses(t) {
        Some(
            cli_stats_row(
                id,
                name,
                get_line_str(t, "CPUPerc"),
                get_line_str(t, "MemUsage"),
                get_line_str(t, "NetIO"),
                get_line_str(t, "BlockIO"),
            ),
        )
    } else {
        None
    }
}

/// Reads a `docker network inspect` document: the network is in use
/// exactly when the first element carries a non-empty `Containers` object.
pub fn network_in_use_from_inspect(output: &str) -> (r: bool)
    ensures
        r == (inspect_containers_count(output@) matches Some(n) && n > 0),
{
    match inspect_containers_len(output) {
        Some(n) => n > 0,
        None => false,
    }
}

/// Reads a `docker volume inspect` document: the volume is in use exactly
/// when the first element's `RefCount` is positive, with `UsageData.RefCount`
/// deciding when no top-level count is present.
pub fn volume_in_use_from_inspect(output: &str) -> (r: bool)
    ensures
        r == (match inspect_ref_count(output@) {
            Some(c) => c > 0,
            None => inspect_usage_ref_count(output@) matches Some(c) && c > 0,
        }),
{
    match inspect_volume_ref_count(output) {
        Some(c) => c > 0,
        None => match inspect_volume_usage_ref_count(output) {
            Some(c) => c > 0,
            None => false,
        },
    }
}

} // verus!
