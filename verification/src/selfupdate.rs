//! Version notice and self-update from release assets.
//!
//! Startup checks are best-effort and cached for a day. A downloaded asset is
//! installed only when its SHA-256 is the published one.

use sha2::Digest;
use vstd::prelude::*;
use vstd::slice::*;
use vstd::std_specs::cmp::PartialOrdSpec;
use vstd::string::*;
use vstd::utf8::*;

use crate::bytes::{path_join, utf8_lossy, PathBytes};
use crate::json::{json_parsed, parse_json, Json};
use crate::number::{
    decimal, decimal_reads_back, hex_form, hex_text, is_digit, lemma_decimal_digits, parse_unsigned,
    push_decimal, unsigned_value,
};
use crate::text::{
    chars_of, index_of_char, lemma_position_unique, lines, position_of, same_text, split_lines,
    split_words, text_of, texts, trim, trimmed, trimmed_end, trimmed_start, white, words,
    words_are_separated_by_white_space,
};

verus! {

/// How long a startup check stays fresh, in seconds.
pub const CHECK_TTL_SECS: u64 = 86400;

// ---------------------------------------------------------------------------
// Versions
// ---------------------------------------------------------------------------

/// Parsed `major.minor.patch` release version.
#[derive(Clone, Copy, Debug, PartialEq, Eq, Ord, Structural)]
pub struct Version {
    pub major: u64,
    pub minor: u64,
    pub patch: u64,
}

/// `a` is a later version than `b`: by major, then minor, then patch number.
pub open spec fn later(a: Version, b: Version) -> bool {
    ||| a.major > b.major
    ||| a.major == b.major && a.minor > b.minor
    ||| a.major == b.major && a.minor == b.minor && a.patch > b.patch
}

impl PartialOrd for Version {
    fn partial_cmp(&self, other: &Version) -> (r: Option<std::cmp::Ordering>) {
        if self.is_later(other) {
            Some(std::cmp::Ordering::Greater)
        } else if other.is_later(self) {
            Some(std::cmp::Ordering::Less)
        } else {
            Some(std::cmp::Ordering::Equal)
        }
    }
}

impl vstd::std_specs::cmp::PartialOrdSpecImpl for Version {
    open spec fn obeys_partial_cmp_spec() -> bool {
        true
    }

    open spec fn partial_cmp_spec(&self, other: &Version) -> Option<std::cmp::Ordering> {
        if later(*self, *other) {
            Some(std::cmp::Ordering::Greater)
        } else if later(*other, *self) {
            Some(std::cmp::Ordering::Less)
        } else {
            Some(std::cmp::Ordering::Equal)
        }
    }
}

/// `s` without surrounding white space and one leading `v` or `V`.
pub open spec fn bare_tag(s: Seq<char>) -> Seq<char> {
    let t = trimmed(s);
    if t.len() > 0 && (t[0] == 'v' || t[0] == 'V') {
        t.skip(1)
    } else {
        t
    }
}

/// `s` up to its pre-release or build suffix.
pub open spec fn release_core(s: Seq<char>) -> Seq<char> {
    let dash = position_of(s, '-');
    let plus = position_of(s, '+');
    s.take(
        if dash < plus {
            dash
        } else {
            plus
        },
    )
}

/// The part of `s` in front of its first dot.
pub open spec fn dot_head(s: Seq<char>) -> Seq<char> {
    s.take(position_of(s, '.'))
}

/// The part of `s` behind its first dot, where it has one.
pub open spec fn dot_tail(s: Seq<char>) -> Option<Seq<char>> {
    let n = position_of(s, '.');
    if n < s.len() {
        Some(s.skip(n + 1))
    } else {
        None
    }
}

/// The number in front of the first dot; a missing part counts as zero.
pub open spec fn part_number(part: Option<Seq<char>>) -> Option<nat> {
    match part {
        Some(s) => unsigned_value(dot_head(s), u64::MAX as nat),
        None => Some(0),
    }
}

pub open spec fn next_part(part: Option<Seq<char>>) -> Option<Seq<char>> {
    match part {
        Some(s) => dot_tail(s),
        None => None,
    }
}

/// The version that a release tag names.
pub open spec fn version_of(tag: Seq<char>) -> Option<Version> {
    let first = Some(release_core(bare_tag(tag)));
    let second = next_part(first);
    let third = next_part(second);
    match (part_number(first), part_number(second), part_number(third)) {
        (Some(major), Some(minor), Some(patch)) => Some(
            Version { major: major as u64, minor: minor as u64, patch: patch as u64 },
        ),
        _ => None,
    }
}

/// The number and the rest of a dotted part.
fn read_part(part: &Option<Vec<char>>) -> (r: Option<(u64, Option<Vec<char>>)>)
    ensures
        ({
            let p = match *part {
                Some(v) => Some(v@),
                None => None,
            };
            &&& r is Some <==> part_number(p) is Some
            &&& r matches Some(x) ==> part_number(p) == Some(x.0 as nat) && next_part(p) == (
            match x.1 {
                Some(v) => Some(v@),
                None => None,
            })
        }),
{
    match part {
        None => Some((0, None)),
        Some(v) => {
            let n: usize = index_of_char(v.as_slice(), '.');
            let head = slice_subrange(v.as_slice(), 0, n);
            assert(head@ =~= dot_head(v@));
            let number: u64 = match parse_unsigned(head, u64::MAX) {
                Some(number) => number,
                None => return None,
            };
            if n < v.len() {
                let rest = slice_to_vec(slice_subrange(v.as_slice(), n + 1, v.len()));
                assert(rest@ =~= v@.skip(n + 1));
                Some((number, Some(rest)))
            } else {
                Some((number, None))
            }
        },
    }
}

impl Version {
    /// Whether this version is later than `other`.
    pub fn is_later(&self, other: &Version) -> (r: bool)
        ensures
            r == later(*self, *other),
    {
        if self.major != other.major {
            self.major > other.major
        } else if self.minor != other.minor {
            self.minor > other.minor
        } else {
            self.patch > other.patch
        }
    }

    /// The version of this package, `0.1.0`.
    pub fn current() -> (r: Version)
        ensures
            r == (Version { major: 0, minor: 1, patch: 0 }),
    {
        Version { major: 0, minor: 1, patch: 0 }
    }

    /// Parses a release tag: an optional `v`, up to three numbers, and a
    /// suffix that is dropped.
    pub fn parse(text: &str) -> (r: Option<Version>)
        ensures
            r == version_of(text@),
    {
        let chars = chars_of(text);
        let t = trim(chars.as_slice());
        let bare = if t.len() > 0 && (t[0] == 'v' || t[0] == 'V') {
            let rest = slice_subrange(t, 1, t.len());
            assert(rest@ =~= t@.skip(1));
            rest
        } else {
            t
        };
        let dash: usize = index_of_char(bare, '-');
        let plus: usize = index_of_char(bare, '+');
        let end: usize = if dash < plus {
            dash
        } else {
            plus
        };
        let core = slice_to_vec(slice_subrange(bare, 0, end));
        assert(core@ =~= release_core(bare_tag(text@)));
        let (major, second) = match read_part(&Some(core)) {
            Some(x) => x,
            None => return None,
        };
        let (minor, third) = match read_part(&second) {
            Some(x) => x,
            None => return None,
        };
        let (patch, _) = match read_part(&third) {
            Some(x) => x,
            None => return None,
        };
        Some(Version { major, minor, patch })
    }

    /// The version as text.
    pub fn to_text(&self) -> (r: String)
        ensures
            r@ == version_form(*self),
    {
        let mut s = String::new();
        push_decimal(&mut s, self.major);
        assert(s@ =~= decimal(self.major as nat));
        s.append(".");
        push_decimal(&mut s, self.minor);
        s.append(".");
        push_decimal(&mut s, self.patch);
        s
    }
}

/// The version as text.
pub open spec fn version_form(v: Version) -> Seq<char> {
    decimal(v.major as nat) + "."@ + decimal(v.minor as nat) + "."@ + decimal(v.patch as nat)
}

// ---------------------------------------------------------------------------
// Release metadata
// ---------------------------------------------------------------------------

/// The first of `assets` that has the name `name`.
pub open spec fn asset_named(assets: Seq<Json>, name: Seq<char>) -> Option<Json>
    decreases assets.len(),
{
    if assets.len() == 0 {
        None
    } else if assets[0].text_field("name"@) == Some(name) {
        Some(assets[0])
    } else {
        asset_named(assets.skip(1), name)
    }
}

/// Where the asset `name` of a release can be downloaded.
pub open spec fn asset_location(release: Json, name: Seq<char>) -> Option<Seq<char>> {
    match release.field("assets"@) {
        Some(Json::List(assets)) => match asset_named(assets@, name) {
            Some(asset) => asset.text_field("browser_download_url"@),
            None => None,
        },
        _ => None,
    }
}

/// Where the asset `name` of a release can be downloaded.
pub fn asset_url(release: &Json, name: &str) -> (r: Option<String>)
    ensures
        match asset_location(*release, name@) {
            Some(url) => r matches Some(s) && s@ == url,
            None => r is None,
        },
{
    let assets = match release.get("assets") {
        Some(Json::List(assets)) => assets,
        _ => return None,
    };
    assert(assets@.skip(0) =~= assets@);
    for i in 0..assets.len()
        invariant
            release.field("assets"@) == Some(Json::List(*assets)),
            asset_named(assets@, name@) == asset_named(assets@.skip(i as int), name@),
    {
        assert(assets@.skip(i as int).skip(1) =~= assets@.skip(i + 1));
        if let Some(n) = assets[i].get_text("name") {
            if same_text(n.as_str(), name) {
                return assets[i].get_text("browser_download_url");
            }
        }
    }
    None
}

/// The release that a response describes, or what is wrong with it.
pub open spec fn release_of(body: Seq<char>) -> Result<Json, Seq<char>> {
    match json_parsed(body) {
        Ok(release) => Ok(release),
        Err(e) => Err("cannot parse release metadata: "@ + e@),
    }
}

/// Parses the metadata of a release.
pub fn fetch_latest(body: &str) -> (r: Result<Json, String>)
    ensures
        match release_of(body@) {
            Ok(release) => r matches Ok(v) && v == release,
            Err(text) => r matches Err(e) && e@ == text,
        },
{
    match parse_json(body) {
        Ok(release) => Ok(release),
        Err(error) => {
            let mut s = "cannot parse release metadata: ".to_owned();
            s.append(error.as_str());
            Err(s)
        },
    }
}

/// The tag of a release, or what is wrong with it.
pub open spec fn tag_of(release: Json) -> Result<Seq<char>, Seq<char>> {
    match release.text_field("tag_name"@) {
        Some(tag) => Ok(tag),
        None => Err("release metadata has no tag_name"@),
    }
}

/// The tag of a release.
pub fn release_tag(release: &Json) -> (r: Result<String, String>)
    ensures
        match tag_of(*release) {
            Ok(tag) => r matches Ok(s) && s@ == tag,
            Err(text) => r matches Err(e) && e@ == text,
        },
{
    match release.get_text("tag_name") {
        Some(tag) => Ok(tag),
        None => Err("release metadata has no tag_name".to_owned()),
    }
}

/// The tag that a response names, or what is wrong with it.
pub open spec fn latest_of(body: Seq<char>) -> Result<Seq<char>, Seq<char>> {
    match release_of(body) {
        Ok(release) => tag_of(release),
        Err(e) => Err(e),
    }
}

/// The tag of the release that a response describes.
pub fn latest_tag(body: &str) -> (r: Result<String, String>)
    ensures
        match latest_of(body@) {
            Ok(tag) => r matches Ok(s) && s@ == tag,
            Err(text) => r matches Err(e) && e@ == text,
        },
{
    match fetch_latest(body) {
        Ok(release) => release_tag(&release),
        Err(e) => Err(e),
    }
}

// ---------------------------------------------------------------------------
// Checksums
// ---------------------------------------------------------------------------

/// `s` without its leading asterisks.
pub open spec fn unstarred(s: Seq<char>) -> Seq<char>
    decreases s.len(),
{
    if s.len() > 0 && s[0] == '*' {
        unstarred(s.skip(1))
    } else {
        s
    }
}

fn drop_stars(s: &str) -> (r: String)
    ensures
        r@ == unstarred(s@),
{
    let v = chars_of(s);
    let mut i: usize = 0;
    assert(v@.skip(0) =~= v@);
    while i < v.len() && v[i] == '*'
        invariant
            i <= v@.len(),
            unstarred(v@) == unstarred(v@.skip(i as int)),
        decreases v@.len() - i,
    {
        assert(v@.skip(i as int).skip(1) =~= v@.skip(i + 1));
        i = i + 1;
    }
    let rest = slice_subrange(v.as_slice(), i, v.len());
    assert(rest@ =~= v@.skip(i as int));
    text_of(rest)
}

/// A checksum line: the hash, then the file name.
pub open spec fn names_asset(line: Seq<char>, asset: Seq<char>) -> bool {
    let fields = words(line, false);
    fields.len() >= 2 && unstarred(fields[1]) == asset
}

/// The hash on the first of `list` that names the asset.
pub open spec fn listed_hash(list: Seq<Seq<char>>, asset: Seq<char>) -> Option<Seq<char>>
    decreases list.len(),
{
    if list.len() == 0 {
        None
    } else if names_asset(list[0], asset) {
        Some(words(list[0], false)[0])
    } else {
        listed_hash(list.skip(1), asset)
    }
}

/// The published checksum of an asset.
pub fn checksum_for(sums: &str, asset: &str) -> (r: Option<String>)
    ensures
        match listed_hash(lines(sums@), asset@) {
            Some(hash) => r matches Some(s) && s@ == hash,
            None => r is None,
        },
{
    let all = split_lines(chars_of(sums).as_slice());
    let ghost list = lines(sums@);
    assert(list.skip(0) =~= list);
    assert(texts(all@).len() == all@.len());
    for i in 0..all.len()
        invariant
            list == lines(sums@),
            list == texts(all@),
            listed_hash(list, asset@) == listed_hash(list.skip(i as int), asset@),
    {
        assert(list.skip(i as int).skip(1) =~= list.skip(i + 1));
        assert(list.skip(i as int)[0] == all@[i as int]@);
        let fields = split_words(chars_of(all[i].as_str()).as_slice(), false);
        assert(texts(fields@).len() == fields@.len());
        if fields.len() >= 2 {
            assert(texts(fields@)[0] == fields@[0]@ && texts(fields@)[1] == fields@[1]@);
            let name = drop_stars(fields[1].as_str());
            if same_text(name.as_str(), asset) {
                return Some(fields[0].clone());
            }
        }
    }
    None
}

/// The ASCII lower-case form of a character.
pub open spec fn lower(c: char) -> char {
    if 'A' <= c && c <= 'Z' {
        ((c as u8) + 32) as u8 as char
    } else {
        c
    }
}

pub open spec fn lowered(s: Seq<char>) -> Seq<char> {
    s.map_values(|c: char| lower(c))
}

fn lower_char(c: char) -> (r: char)
    ensures
        r == lower(c),
{
    if 'A' <= c && c <= 'Z' {
        ((c as u8) + 32) as char
    } else {
        c
    }
}

fn lower_chars(s: &[char]) -> (r: String)
    ensures
        r@ == lowered(s@),
{
    let mut out = String::new();
    for i in 0..s.len()
        invariant
            out@ == lowered(s@).take(i as int),
    {
        assert(lowered(s@).take(i + 1) =~= lowered(s@).take(i as int).push(lower(s@[i as int])));
        out.push(lower_char(s[i]));
    }
    assert(lowered(s@).take(s@.len() as int) =~= lowered(s@));
    out
}

/// The SHA-256 digest of `data`.
pub uninterp spec fn sha256_digest(data: Seq<u8>) -> Seq<u8>;

/// `sha2::Sha256::digest`: the 32 bytes of the SHA-256 digest.
#[verifier::external_body]
fn sha256(data: &[u8]) -> (r: Vec<u8>)
    ensures
        r@ == sha256_digest(data@),
        r@.len() == 32,
{
    sha2::Sha256::digest(data).to_vec()
}

/// The checksum of a file, as it is published.
pub fn sha256_hex(data: &[u8]) -> (r: String)
    ensures
        r@ == hex_form(sha256_digest(data@)),
{
    hex_text(sha256(data).as_slice())
}

/// Two checksums agree whatever the case of their digits.
pub open spec fn same_checksum(actual: Seq<char>, expected: Seq<char>) -> bool {
    lowered(actual) == lowered(trimmed(expected))
}

pub open spec fn mismatch_text(
    asset: Seq<char>,
    expected: Seq<char>,
    actual: Seq<char>,
) -> Seq<char> {
    "checksum mismatch for "@ + asset + " (expected "@ + trimmed(expected) + ", got "@ + actual
        + ")"@
}

/// Checks the checksum of an asset against the published one.
pub fn verify_checksum(asset: &str, expected: &str, actual: &str) -> (r: Result<(), String>)
    ensures
        r is Ok <==> same_checksum(actual@, expected@),
        r matches Err(e) ==> e@ == mismatch_text(asset@, expected@, actual@),
{
    let wanted = chars_of(expected);
    let wanted = trim(wanted.as_slice());
    let got = chars_of(actual);
    if same_text(lower_chars(got.as_slice()).as_str(), lower_chars(wanted).as_str()) {
        return Ok(());
    }
    let mut e = "checksum mismatch for ".to_owned();
    e.append(asset);
    e.append(" (expected ");
    e.append(text_of(wanted).as_str());
    e.append(", got ");
    e.append(actual);
    e.append(")");
    Err(e)
}

// ---------------------------------------------------------------------------
// Installing
// ---------------------------------------------------------------------------

/// The target of the prebuilt binary for a machine, where there is one.
pub open spec fn triple_of(os: Seq<char>, arch: Seq<char>) -> Option<Seq<char>> {
    if os == "macos"@ && arch == "aarch64"@ {
        Some("aarch64-apple-darwin"@)
    } else if os == "macos"@ && arch == "x86_64"@ {
        Some("x86_64-apple-darwin"@)
    } else if os == "linux"@ && arch == "x86_64"@ {
        Some("x86_64-unknown-linux-gnu"@)
    } else if os == "linux"@ && arch == "aarch64"@ {
        Some("aarch64-unknown-linux-gnu"@)
    } else {
        None
    }
}

/// The target of the prebuilt binary for a machine, where there is one.
pub fn target_triple(os: &str, arch: &str) -> (r: Option<String>)
    ensures
        match triple_of(os@, arch@) {
            Some(t) => r matches Some(s) && s@ == t,
            None => r is None,
        },
{
    if same_text(os, "macos") && same_text(arch, "aarch64") {
        Some("aarch64-apple-darwin".to_owned())
    } else if same_text(os, "macos") && same_text(arch, "x86_64") {
        Some("x86_64-apple-darwin".to_owned())
    } else if same_text(os, "linux") && same_text(arch, "x86_64") {
        Some("x86_64-unknown-linux-gnu".to_owned())
    } else if same_text(os, "linux") && same_text(arch, "aarch64") {
        Some("aarch64-unknown-linux-gnu".to_owned())
    } else {
        None
    }
}

/// This program on this machine.
#[derive(Debug)]
pub struct Machine {
    pub os: String,
    pub arch: String,
    pub pid: u32,
}

/// Where this program is installed.
#[derive(Debug)]
pub struct Installation {
    pub exe: PathBytes,
    /// The directory of the executable, where it has one.
    pub dir: Option<PathBytes>,
}

/// What has happened in a self-update so far; a field is empty until its step
/// has been performed.
#[derive(Debug)]
pub struct UpdateRecord {
    /// The response that describes the latest release.
    pub release: Option<Result<String, String>>,
    /// The published checksums.
    pub sums: Option<Result<String, String>>,
    pub installation: Option<Result<Installation, String>>,
    /// Why the asset could not be downloaded.
    pub downloaded: Option<Option<String>>,
    /// The content of the download.
    pub content: Option<Result<Vec<u8>, String>>,
    /// Why the download could not be put in place.
    pub installed: Option<Option<String>>,
}

impl UpdateRecord {
    /// Nothing has happened yet.
    pub fn new() -> (r: UpdateRecord)
        ensures
            r.release is None,
            r.sums is None,
            r.installation is None,
            r.downloaded is None,
            r.content is None,
            r.installed is None,
    {
        UpdateRecord {
            release: None,
            sums: None,
            installation: None,
            downloaded: None,
            content: None,
            installed: None,
        }
    }
}

/// What comes next in a self-update.
#[derive(Debug)]
pub enum UpdateStep {
    FetchRelease,
    /// The checksums are to be fetched from this address.
    FetchSums(String),
    Locate,
    /// The asset at this address is to be downloaded to this file.
    Download(String, PathBytes),
    /// The download is to be read back.
    ReadBack(PathBytes),
    /// The file is to be made executable and renamed over the executable.
    Install(PathBytes, PathBytes),
    /// The self-update is over: what to print, or why it failed. A temporary
    /// file that is named is to be removed.
    Done(Result<String, String>, Option<PathBytes>),
}

/// What comes next in a self-update, over models.
pub enum UpdateView {
    FetchRelease,
    FetchSums(Seq<char>),
    Locate,
    Download(Seq<char>, Seq<u8>),
    ReadBack(Seq<u8>),
    Install(Seq<u8>, Seq<u8>),
    Done(Result<Seq<char>, Seq<char>>, Option<Seq<u8>>),
}

impl View for UpdateStep {
    type V = UpdateView;

    open spec fn view(&self) -> UpdateView {
        match self {
            UpdateStep::FetchRelease => UpdateView::FetchRelease,
            UpdateStep::FetchSums(url) => UpdateView::FetchSums(url@),
            UpdateStep::Locate => UpdateView::Locate,
            UpdateStep::Download(url, tmp) => UpdateView::Download(url@, tmp@),
            UpdateStep::ReadBack(tmp) => UpdateView::ReadBack(tmp@),
            UpdateStep::Install(tmp, exe) => UpdateView::Install(tmp@, exe@),
            UpdateStep::Done(result, tmp) => UpdateView::Done(
                match result {
                    Ok(s) => Ok(s@),
                    Err(e) => Err(e@),
                },
                match tmp {
                    Some(p) => Some(p@),
                    None => None,
                },
            ),
        }
    }
}

/// A self-update that ends with an error.
pub open spec fn failed(text: Seq<char>) -> UpdateView {
    UpdateView::Done(Err(text), None)
}

/// The name of the asset for a machine.
pub open spec fn asset_name(triple: Seq<char>) -> Seq<char> {
    "update-agents-"@ + triple
}

/// The temporary file of a download.
pub open spec fn tmp_path(dir: Seq<u8>, pid: u32) -> Seq<u8> {
    path_join(dir, encode_utf8(".update-agents."@ + decimal(pid as nat) + ".tmp"@))
}

/// What comes next once the download is wanted.
pub open spec fn placing(
    rec: UpdateRecord,
    asset: Seq<char>,
    url: Seq<char>,
    expected: Seq<char>,
    latest: Version,
    exe: Seq<u8>,
    tmp: Seq<u8>,
) -> UpdateView {
    match rec.downloaded {
        None => UpdateView::Download(url, tmp),
        Some(Some(e)) => UpdateView::Done(Err(e@), Some(tmp)),
        Some(None) => match rec.content {
            None => UpdateView::ReadBack(tmp),
            Some(Err(e)) => UpdateView::Done(Err(e@), Some(tmp)),
            Some(Ok(data)) => {
                let actual = hex_form(sha256_digest(data@));
                if !same_checksum(actual, expected) {
                    UpdateView::Done(Err(mismatch_text(asset, expected, actual)), Some(tmp))
                } else {
                    match rec.installed {
                        None => UpdateView::Install(tmp, exe),
                        Some(Some(e)) => UpdateView::Done(Err(e@), Some(tmp)),
                        Some(None) => UpdateView::Done(
                            Ok(
                                "update-agents: installed v"@ + version_form(latest) + " at "@
                                    + utf8_lossy(exe) + "\n"@,
                            ),
                            None,
                        ),
                    }
                }
            },
        },
    }
}

/// What comes next when an asset of a release is installed.
pub open spec fn installing(
    release: Json,
    tag: Seq<char>,
    latest: Version,
    machine: Machine,
    rec: UpdateRecord,
) -> UpdateView {
    match triple_of(machine.os@, machine.arch@) {
        None => failed("no prebuilt binary for "@ + machine.os@ + "/"@ + machine.arch@),
        Some(triple) => {
            let asset = asset_name(triple);
            match (asset_location(release, asset), asset_location(release, "sha256sums.txt"@)) {
                (None, _) => failed("release "@ + tag + " has no asset named "@ + asset),
                (_, None) => failed("release "@ + tag + " has no sha256sums.txt"@),
                (Some(url), Some(sums_url)) => match rec.sums {
                    None => UpdateView::FetchSums(sums_url),
                    Some(Err(e)) => failed(e@),
                    Some(Ok(sums)) => match listed_hash(lines(sums@), asset) {
                        None => failed("sha256sums.txt has no entry for "@ + asset),
                        Some(expected) => match rec.installation {
                            None => UpdateView::Locate,
                            Some(Err(e)) => failed("cannot locate current executable: "@ + e@),
                            Some(Ok(place)) => match place.dir {
                                None => failed(
                                    "cannot determine install directory of "@ + utf8_lossy(
                                        place.exe@,
                                    ),
                                ),
                                Some(dir) => placing(
                                    rec,
                                    asset,
                                    url,
                                    expected,
                                    latest,
                                    place.exe@,
                                    tmp_path(dir@, machine.pid),
                                ),
                            },
                        },
                    },
                },
            }
        },
    }
}

fn fail(text: String) -> (r: UpdateStep)
    ensures
        r@ == failed(text@),
{
    UpdateStep::Done(Err(text), None)
}

fn place_asset(
    rec: &UpdateRecord,
    asset: &str,
    url: String,
    expected: &str,
    latest: &Version,
    exe: &PathBytes,
    tmp: PathBytes,
) -> (r: UpdateStep)
    ensures
        r@ == placing(*rec, asset@, url@, expected@, *latest, exe@, tmp@),
{
    match &rec.downloaded {
        None => return UpdateStep::Download(url, tmp),
        Some(Some(e)) => return UpdateStep::Done(Err(e.clone()), Some(tmp)),
        Some(None) => {},
    }
    let data = match &rec.content {
        None => return UpdateStep::ReadBack(tmp),
        Some(Err(e)) => return UpdateStep::Done(Err(e.clone()), Some(tmp)),
        Some(Ok(data)) => data,
    };
    let actual = sha256_hex(data.as_slice());
    if let Err(e) = verify_checksum(asset, expected, actual.as_str()) {
        return UpdateStep::Done(Err(e), Some(tmp));
    }
    match &rec.installed {
        None => UpdateStep::Install(tmp, exe.clone()),
        Some(Some(e)) => UpdateStep::Done(Err(e.clone()), Some(tmp)),
        Some(None) => {
            let mut s = "update-agents: installed v".to_owned();
            s.append(latest.to_text().as_str());
            s.append(" at ");
            s.append(exe.display().as_str());
            s.append("\n");
            UpdateStep::Done(Ok(s), None)
        },
    }
}

/// Decides what comes next when the asset for this machine is installed: its
/// checksum is fetched first, and a download replaces the executable only
/// when it has that checksum.
pub fn install_asset(
    release: &Json,
    tag: &str,
    latest: &Version,
    machine: &Machine,
    rec: &UpdateRecord,
) -> (r: UpdateStep)
    ensures
        r@ == installing(*release, tag@, *latest, *machine, *rec),
{
    let triple = match target_triple(machine.os.as_str(), machine.arch.as_str()) {
        Some(triple) => triple,
        None => {
            let mut e = "no prebuilt binary for ".to_owned();
            e.append(machine.os.as_str());
            e.append("/");
            e.append(machine.arch.as_str());
            return fail(e);
        },
    };
    let mut asset = "update-agents-".to_owned();
    asset.append(triple.as_str());
    let url = match asset_url(release, asset.as_str()) {
        Some(url) => url,
        None => {
            let mut e = "release ".to_owned();
            e.append(tag);
            e.append(" has no asset named ");
            e.append(asset.as_str());
            return fail(e);
        },
    };
    let sums_url = match asset_url(release, "sha256sums.txt") {
        Some(url) => url,
        None => {
            let mut e = "release ".to_owned();
            e.append(tag);
            e.append(" has no sha256sums.txt");
            return fail(e);
        },
    };
    let sums = match &rec.sums {
        None => return UpdateStep::FetchSums(sums_url),
        Some(Err(e)) => return fail(e.clone()),
        Some(Ok(sums)) => sums,
    };
    let expected = match checksum_for(sums.as_str(), asset.as_str()) {
        Some(hash) => hash,
        None => {
            let mut e = "sha256sums.txt has no entry for ".to_owned();
            e.append(asset.as_str());
            return fail(e);
        },
    };
    let place = match &rec.installation {
        None => return UpdateStep::Locate,
        Some(Err(error)) => {
            let mut e = "cannot locate current executable: ".to_owned();
            e.append(error.as_str());
            return fail(e);
        },
        Some(Ok(place)) => place,
    };
    let dir = match &place.dir {
        Some(dir) => dir,
        None => {
            let mut e = "cannot determine install directory of ".to_owned();
            e.append(place.exe.display().as_str());
            return fail(e);
        },
    };
    let mut name = ".update-agents.".to_owned();
    push_decimal(&mut name, machine.pid as u64);
    name.append(".tmp");
    let tmp = dir.join(name.as_str());
    place_asset(rec, asset.as_str(), url, expected.as_str(), latest, &place.exe, tmp)
}

/// What comes next in a self-update to the release that a response describes.
pub open spec fn updating(
    release: Json,
    current: Version,
    machine: Machine,
    rec: UpdateRecord,
) -> UpdateView {
    match tag_of(release) {
        Err(e) => failed(e),
        Ok(tag) => match version_of(tag) {
            None => failed("release tag '"@ + tag + "' is not a version"@),
            Some(latest) => if later(latest, current) {
                installing(release, tag, latest, machine, rec)
            } else {
                UpdateView::Done(
                    Ok(
                        "update-agents: already up to date (v"@ + version_form(current) + ")\n"@,
                    ),
                    None,
                )
            },
        },
    }
}

/// Decides what comes next in a self-update to the given release.
pub fn update_to(
    release: &Json,
    current: &Version,
    machine: &Machine,
    rec: &UpdateRecord,
) -> (r: UpdateStep)
    ensures
        r@ == updating(*release, *current, *machine, *rec),
{
    let tag = match release_tag(release) {
        Ok(tag) => tag,
        Err(e) => return fail(e),
    };
    let latest = match Version::parse(tag.as_str()) {
        Some(latest) => latest,
        None => {
            let mut e = "release tag '".to_owned();
            e.append(tag.as_str());
            e.append("' is not a version");
            return fail(e);
        },
    };
    if !latest.is_later(current) {
        let mut s = "update-agents: already up to date (v".to_owned();
        s.append(current.to_text().as_str());
        s.append(")\n");
        return UpdateStep::Done(Ok(s), None);
    }
    install_asset(release, tag.as_str(), &latest, machine, rec)
}

/// What comes next in a self-update.
pub open spec fn self_update(current: Version, machine: Machine, rec: UpdateRecord) -> UpdateView {
    match rec.release {
        None => UpdateView::FetchRelease,
        Some(Err(e)) => failed(e@),
        Some(Ok(body)) => match release_of(body@) {
            Err(e) => failed(e),
            Ok(release) => updating(release, current, machine, rec),
        },
    }
}

/// Decides what comes next in a self-update: the latest release replaces this
/// executable. Always fresh, never cached.
pub fn run_self_update(current: &Version, machine: &Machine, rec: &UpdateRecord) -> (r: UpdateStep)
    ensures
        r@ == self_update(*current, *machine, *rec),
{
    let body = match &rec.release {
        None => return UpdateStep::FetchRelease,
        Some(Err(e)) => return fail(e.clone()),
        Some(Ok(body)) => body,
    };
    match fetch_latest(body.as_str()) {
        Err(e) => fail(e),
        Ok(release) => update_to(&release, current, machine, rec),
    }
}

// ---------------------------------------------------------------------------
// The startup check
// ---------------------------------------------------------------------------

/// Outcome of the startup check: whether this process performed a self-update
/// and must therefore not start any update work.
#[derive(Clone, Copy, Debug, PartialEq, Eq, Structural)]
pub enum Startup {
    Continue,
    Updated,
}

/// What is remembered of the last check.
#[derive(Debug)]
pub struct Cache {
    pub checked_at: u64,
    pub latest: String,
    /// Latest tag already surfaced or declined, so that it is not raised
    /// again.
    pub acknowledged_version: String,
}

pub struct CacheView {
    pub checked_at: u64,
    pub latest: Seq<char>,
    pub acknowledged_version: Seq<char>,
}

impl View for Cache {
    type V = CacheView;

    open spec fn view(&self) -> CacheView {
        CacheView {
            checked_at: self.checked_at,
            latest: self.latest@,
            acknowledged_version: self.acknowledged_version@,
        }
    }
}

/// What has happened in a startup check so far.
#[derive(Debug)]
pub struct CheckRecord {
    /// The response that describes the latest release.
    pub release: Option<Result<String, String>>,
    /// What the user answered.
    pub answer: Option<String>,
    /// What the self-update brought: nothing, or why it failed.
    pub update: Option<Option<String>>,
}

/// What comes next in a startup check.
#[derive(Debug)]
pub enum CheckStep {
    FetchRelease,
    /// The cache is to be saved and the user to be asked with this prompt.
    Ask(Cache, String),
    SelfUpdate,
    Done(CheckEnd),
}

/// The end of a startup check.
#[derive(Debug)]
pub struct CheckEnd {
    pub startup: Startup,
    /// What is to be saved.
    pub save: Option<Cache>,
    /// For the standard output.
    pub out: String,
    /// For the error output.
    pub err: String,
}

/// What comes next in a startup check, over models.
pub enum CheckView {
    FetchRelease,
    Ask(CacheView, Seq<char>),
    SelfUpdate,
    Done(Startup, Option<CacheView>, Seq<char>, Seq<char>),
}

impl View for CheckStep {
    type V = CheckView;

    open spec fn view(&self) -> CheckView {
        match self {
            CheckStep::FetchRelease => CheckView::FetchRelease,
            CheckStep::Ask(cache, prompt) => CheckView::Ask(cache@, prompt@),
            CheckStep::SelfUpdate => CheckView::SelfUpdate,
            CheckStep::Done(end) => CheckView::Done(
                end.startup,
                match end.save {
                    Some(c) => Some(c@),
                    None => None,
                },
                end.out@,
                end.err@,
            ),
        }
    }
}

/// The remembered tag is recent enough.
pub open spec fn is_fresh(cache: CacheView, now: u64) -> bool {
    cache.latest.len() > 0 && (now < cache.checked_at || now - cache.checked_at < CHECK_TTL_SECS)
}

/// The answer is a yes.
pub open spec fn says_yes(answer: Seq<char>) -> bool {
    lowered(trimmed(answer)) == "y"@ || lowered(trimmed(answer)) == "yes"@
}

/// Whether an answer is a yes; anything else is a no.
pub fn is_yes(answer: &str) -> (r: bool)
    ensures
        r == says_yes(answer@),
{
    let chars = chars_of(answer);
    let word = lower_chars(trim(chars.as_slice()));
    same_text(word.as_str(), "y") || same_text(word.as_str(), "yes")
}

/// The startup check goes on silently.
pub open spec fn go_on(save: Option<CacheView>) -> CheckView {
    CheckView::Done(Startup::Continue, save, Seq::empty(), Seq::empty())
}

/// "tag is available (you have current)".
pub open spec fn available(tag: Seq<char>, current: Version) -> Seq<char> {
    "update-agents: "@ + tag + " is available (you have "@ + version_form(current)
}

/// What comes next once the latest tag is known.
pub open spec fn notice(
    tag: Seq<char>,
    cache: CacheView,
    current: Version,
    interactive: bool,
    rec: CheckRecord,
) -> CheckView {
    let newer = version_of(tag) matches Some(v) && later(v, current);
    let noted = CacheView { acknowledged_version: tag, ..cache };
    if !newer || cache.acknowledged_version == tag {
        go_on(Some(cache))
    } else if !interactive {
        CheckView::Done(
            Startup::Continue,
            Some(noted),
            available(tag, current) + "); update with `update-agents self-update`.\n"@,
            Seq::empty(),
        )
    } else {
        match rec.answer {
            None => CheckView::Ask(noted, available(tag, current) + "). Update now? [y/N] "@),
            Some(answer) => if !says_yes(answer@) {
                CheckView::Done(
                    Startup::Continue,
                    None,
                    "update-agents: keeping "@ + version_form(current)
                        + "; update later with `update-agents self-update`.\n"@,
                    Seq::empty(),
                )
            } else {
                match rec.update {
                    None => CheckView::SelfUpdate,
                    Some(None) => CheckView::Done(
                        Startup::Updated,
                        None,
                        "update-agents: updated to "@ + tag
                            + "; the next run uses the new version.\n"@,
                        Seq::empty(),
                    ),
                    Some(Some(e)) => CheckView::Done(
                        Startup::Continue,
                        None,
                        Seq::empty(),
                        "update-agents: self-update failed: "@ + e@ + "\n"@,
                    ),
                }
            },
        }
    }
}

/// What comes next in a startup check.
pub open spec fn check_step(
    cache: CacheView,
    now: u64,
    current: Version,
    interactive: bool,
    rec: CheckRecord,
) -> CheckView {
    if is_fresh(cache, now) {
        notice(cache.latest, cache, current, interactive, rec)
    } else {
        match rec.release {
            None => CheckView::FetchRelease,
            Some(Err(_)) => go_on(None),
            Some(Ok(body)) => match latest_of(body@) {
                Err(_) => go_on(None),
                Ok(tag) => notice(
                    tag,
                    CacheView { checked_at: now, latest: tag, ..cache },
                    current,
                    interactive,
                    rec,
                ),
            },
        }
    }
}

fn end(startup: Startup, save: Option<Cache>, out: String, err: String) -> (r: CheckStep)
    ensures
        r@ == CheckView::Done(
            startup,
            match save {
                Some(c) => Some(c@),
                None => None,
            },
            out@,
            err@,
        ),
{
    CheckStep::Done(CheckEnd { startup, save, out, err })
}

fn quiet(save: Option<Cache>) -> (r: CheckStep)
    ensures
        r@ == go_on(
            match save {
                Some(c) => Some(c@),
                None => None,
            },
        ),
{
    let none = String::new();
    assert(none@ =~= Seq::<char>::empty());
    end(Startup::Continue, save, none, String::new())
}

fn available_text(tag: &str, current: &Version) -> (r: String)
    ensures
        r@ == available(tag@, *current),
{
    let mut s = "update-agents: ".to_owned();
    s.append(tag);
    s.append(" is available (you have ");
    s.append(current.to_text().as_str());
    s
}

/// Decides what comes next once the latest tag is known. A version that was
/// declined or already surfaced is not raised again.
pub fn raise_notice(
    tag: &str,
    cache: Cache,
    current: &Version,
    interactive: bool,
    rec: &CheckRecord,
) -> (r: CheckStep)
    ensures
        r@ == notice(tag@, cache@, *current, interactive, *rec),
{
    let newer = match Version::parse(tag) {
        Some(latest) => latest.is_later(current),
        None => false,
    };
    if !newer || same_text(cache.acknowledged_version.as_str(), tag) {
        return quiet(Some(cache));
    }
    let mut cache = cache;
    cache.acknowledged_version = tag.to_owned();
    let nothing = String::new();
    assert(nothing@ =~= Seq::<char>::empty());
    if !interactive {
        let mut out = available_text(tag, current);
        out.append("); update with `update-agents self-update`.\n");
        return end(Startup::Continue, Some(cache), out, nothing);
    }
    let answer = match &rec.answer {
        None => {
            let mut prompt = available_text(tag, current);
            prompt.append("). Update now? [y/N] ");
            return CheckStep::Ask(cache, prompt);
        },
        Some(answer) => answer,
    };
    if !is_yes(answer.as_str()) {
        let mut out = "update-agents: keeping ".to_owned();
        out.append(current.to_text().as_str());
        out.append("; update later with `update-agents self-update`.\n");
        return end(Startup::Continue, None, out, nothing);
    }
    match &rec.update {
        None => CheckStep::SelfUpdate,
        Some(None) => {
            let mut out = "update-agents: updated to ".to_owned();
            out.append(tag);
            out.append("; the next run uses the new version.\n");
            end(Startup::Updated, None, out, nothing)
        },
        Some(Some(e)) => {
            let mut err = "update-agents: self-update failed: ".to_owned();
            err.append(e.as_str());
            err.append("\n");
            end(Startup::Continue, None, nothing, err)
        },
    }
}

/// Decides what comes next in a startup check: a notice, or a question and a
/// self-update. Without a usable response the check goes on silently.
pub fn startup_check(
    cache: Cache,
    now: u64,
    current: &Version,
    interactive: bool,
    rec: &CheckRecord,
) -> (r: CheckStep)
    ensures
        r@ == check_step(cache@, now, *current, interactive, *rec),
{
    let fresh = !cache.latest.as_str().is_empty() && now.saturating_sub(cache.checked_at)
        < CHECK_TTL_SECS;
    if fresh {
        let tag = cache.latest.clone();
        return raise_notice(tag.as_str(), cache, current, interactive, rec);
    }
    let body = match &rec.release {
        None => return CheckStep::FetchRelease,
        Some(Err(_)) => return quiet(None),
        Some(Ok(body)) => body,
    };
    match latest_tag(body.as_str()) {
        Err(_) => quiet(None),
        Ok(tag) => {
            let mut cache = cache;
            cache.checked_at = now;
            cache.latest = tag.clone();
            raise_notice(tag.as_str(), cache, current, interactive, rec)
        },
    }
}

// ---------------------------------------------------------------------------
// Laws
// ---------------------------------------------------------------------------

/// Versions are totally ordered: of two different ones exactly one is later.
pub proof fn versions_are_ordered(a: Version, b: Version, c: Version)
    ensures
        later(a, b) ==> !later(b, a),
        a == b || later(a, b) || later(b, a),
        later(a, b) && later(b, c) ==> later(a, c),
{
}

proof fn lemma_dotted(head: Seq<char>, rest: Seq<char>)
    requires
        !head.contains('.'),
    ensures
        dot_head(head + "."@ + rest) == head,
        dot_tail(head + "."@ + rest) == Some(rest),
{
    reveal_strlit(".");
    let s = head + "."@ + rest;
    assert forall|k: int| 0 <= k < head.len() implies s[k] != '.' by {
        assert(s[k] == head[k]);
        assert(head.contains(head[k]));
    }
    lemma_position_unique(s, '.', head.len() as int);
    assert(s.take(head.len() as int) =~= head);
    assert(s.skip(head.len() as int + 1) =~= rest);
}

proof fn lemma_absent(s: Seq<char>, c: char)
    requires
        !s.contains(c),
    ensures
        position_of(s, c) == s.len(),
{
    assert forall|k: int| 0 <= k < s.len() implies s[k] != c by {
        assert(s.contains(s[k]));
    }
    lemma_position_unique(s, c, s.len() as int);
}

/// The text of a version names that version.
pub proof fn version_text_reads_back(v: Version)
    ensures
        version_of(version_form(v)) == Some(v),
{
    reveal_strlit(".");
    let a = decimal(v.major as nat);
    let b = decimal(v.minor as nat);
    let c = decimal(v.patch as nat);
    lemma_decimal_digits(v.major as nat);
    lemma_decimal_digits(v.minor as nat);
    lemma_decimal_digits(v.patch as nat);
    decimal_reads_back(v.major as nat, u64::MAX as nat);
    decimal_reads_back(v.minor as nat, u64::MAX as nat);
    decimal_reads_back(v.patch as nat, u64::MAX as nat);
    let s = version_form(v);
    assert forall|k: int| 0 <= k < s.len() implies is_digit(#[trigger] s[k]) || s[k] == '.' by {
        if k < a.len() {
            assert(s[k] == a[k]);
        } else if k == a.len() || k == a.len() + 1 + b.len() {
        } else if k < a.len() + 1 + b.len() {
            assert(s[k] == b[k - a.len() - 1]);
        } else {
            assert(s[k] == c[k - a.len() - 1 - b.len() - 1]);
        }
    }
    assert(s[0] == a[0] && is_digit(a[0]));
    assert(s.last() == c.last() && is_digit(c[c.len() - 1]));
    assert(trimmed_start(s) == s && trimmed_end(s) == s);
    assert(bare_tag(s) == s);
    assert(!s.contains('-') && !s.contains('+'));
    lemma_absent(s, '-');
    lemma_absent(s, '+');
    assert(s.take(s.len() as int) =~= s);
    assert(release_core(bare_tag(s)) == s);
    assert(!a.contains('.') && !b.contains('.') && !c.contains('.'));
    let rest = b + "."@ + c;
    assert(s =~= a + "."@ + rest);
    lemma_dotted(a, rest);
    lemma_dotted(b, c);
    lemma_absent(c, '.');
    assert(dot_head(c) =~= c);
}

/// The executable is replaced only by a download whose SHA-256 is the
/// published one, and only by a later version.
pub proof fn only_verified_downloads_are_installed(
    current: Version,
    machine: Machine,
    rec: UpdateRecord,
)
    requires
        self_update(current, machine, rec) is Install,
    ensures
        rec.content matches Some(Ok(data)) && rec.sums matches Some(Ok(sums)) && {
            let asset = asset_name(triple_of(machine.os@, machine.arch@)->0);
            let expected = listed_hash(lines(sums@), asset);
            expected is Some && same_checksum(hex_form(sha256_digest(data@)), expected->0)
        },
        rec.release matches Some(Ok(body)) && latest_of(body@) matches Ok(tag) && version_of(
            tag,
        ) matches Some(latest) && later(latest, current),
{
}

/// A version that was surfaced once is not raised again: with the saved
/// cache the next check inside the same day is silent.
pub proof fn a_version_is_raised_once(
    cache: CacheView,
    now: u64,
    next: u64,
    current: Version,
    interactive: bool,
    rec: CheckRecord,
    saved: CacheView,
)
    requires
        match check_step(cache, now, current, interactive, rec) {
            CheckView::Ask(c, _) => c == saved,
            CheckView::Done(_, Some(c), _, _) => c == saved,
            _ => false,
        },
        is_fresh(saved, next),
    ensures
        check_step(saved, next, current, interactive, rec) == go_on(Some(saved)),
{
}

/// A tag names the version it spells out: a `v` in front and a pre-release or
/// build suffix do not matter.
pub proof fn tags_name_the_version_they_spell(v: Version, prefix: Seq<char>, suffix: Seq<char>)
    requires
        prefix == ""@ || prefix == "v"@ || prefix == "V"@,
        suffix.len() > 0 ==> (suffix[0] == '-' || suffix[0] == '+') && !white(suffix.last()),
    ensures
        version_of(prefix + version_form(v) + suffix) == Some(v),
{
    reveal_strlit("");
    reveal_strlit("v");
    reveal_strlit("V");
    assert("v"@ =~= seq!['v']);
    assert("V"@ =~= seq!['V']);
    let s = version_form(v);
    lemma_version_chars(v);
    lemma_core(prefix, s, suffix);
    lemma_core(Seq::empty(), s, Seq::empty());
    assert(Seq::<char>::empty() + s + Seq::<char>::empty() =~= s);
    version_text_reads_back(v);
}

/// Numbers that a tag leaves out are zero.
pub proof fn missing_numbers_are_zero(major: u64, minor: u64)
    ensures
        version_of(decimal(major as nat) + "."@ + decimal(minor as nat)) == Some(
            Version { major, minor, patch: 0 },
        ),
        version_of(decimal(major as nat)) == Some(Version { major, minor: 0, patch: 0 }),
{
    reveal_strlit(".");
    let none = Seq::<char>::empty();
    let a = decimal(major as nat);
    let b = decimal(minor as nat);
    lemma_decimal_digits(major as nat);
    lemma_decimal_digits(minor as nat);
    decimal_reads_back(major as nat, u64::MAX as nat);
    decimal_reads_back(minor as nat, u64::MAX as nat);
    assert(is_digit(a[0]) && is_digit(a[a.len() - 1]) && is_digit(b[b.len() - 1]));
    assert(!a.contains('.') && !b.contains('.'));
    let two = a + "."@ + b;
    assert forall|k: int| 0 <= k < two.len() implies is_digit(#[trigger] two[k]) || two[k]
        == '.' by {
        if k < a.len() {
            assert(two[k] == a[k]);
        } else if k > a.len() {
            assert(two[k] == b[k - a.len() - 1]);
        }
    }
    assert(two[0] == a[0] && two.last() == b.last());
    lemma_dotted(a, b);
    lemma_absent(b, '.');
    assert(dot_head(b) =~= b);
    assert(none + two + none =~= two);
    lemma_core(none, two, none);
    lemma_absent(a, '.');
    assert(dot_head(a) =~= a);
    assert(none + a + none =~= a);
    lemma_core(none, a, none);
}

proof fn lemma_version_chars(v: Version)
    ensures
        ({
            let s = version_form(v);
            &&& s.len() > 0
            &&& is_digit(s[0])
            &&& is_digit(s.last())
            &&& forall|k: int| 0 <= k < s.len() ==> is_digit(#[trigger] s[k]) || s[k] == '.'
        }),
{
    reveal_strlit(".");
    let a = decimal(v.major as nat);
    let b = decimal(v.minor as nat);
    let c = decimal(v.patch as nat);
    lemma_decimal_digits(v.major as nat);
    lemma_decimal_digits(v.minor as nat);
    lemma_decimal_digits(v.patch as nat);
    let s = version_form(v);
    assert forall|k: int| 0 <= k < s.len() implies is_digit(#[trigger] s[k]) || s[k] == '.' by {
        if k < a.len() {
            assert(s[k] == a[k]);
        } else if k == a.len() || k == a.len() + 1 + b.len() {
        } else if k < a.len() + 1 + b.len() {
            assert(s[k] == b[k - a.len() - 1]);
        } else {
            assert(s[k] == c[k - a.len() - 1 - b.len() - 1]);
        }
    }
    assert(s[0] == a[0] && is_digit(a[0]));
    assert(s.last() == c.last() && is_digit(c[c.len() - 1]));
}

proof fn lemma_core(prefix: Seq<char>, s: Seq<char>, suffix: Seq<char>)
    requires
        prefix.len() == 0 || prefix == seq!['v'] || prefix == seq!['V'],
        s.len() > 0,
        is_digit(s[0]),
        is_digit(s.last()),
        forall|k: int| 0 <= k < s.len() ==> is_digit(#[trigger] s[k]) || s[k] == '.',
        suffix.len() > 0 ==> (suffix[0] == '-' || suffix[0] == '+') && !white(suffix.last()),
    ensures
        release_core(bare_tag(prefix + s + suffix)) == s,
{
    let t = prefix + s + suffix;
    let bare = s + suffix;
    assert(!white(t[0])) by {
        if prefix.len() == 0 {
            assert(t[0] == s[0]);
        }
    }
    assert(!white(t.last())) by {
        if suffix.len() == 0 {
            assert(t.last() == s.last());
        } else {
            assert(t.last() == suffix.last());
        }
    }
    assert(trimmed_start(t) == t && trimmed_end(t) == t);
    if prefix.len() == 0 {
        assert(t =~= bare);
        assert(t[0] == s[0]);
    } else {
        assert(t[0] == prefix[0]);
        assert(t.skip(1) =~= bare);
    }
    assert(bare_tag(t) == bare);
    let n = s.len() as int;
    assert forall|k: int| 0 <= k < n implies bare[k] != '-' && bare[k] != '+' by {
        assert(bare[k] == s[k]);
    }
    lemma_not_before(bare, '-', n);
    lemma_not_before(bare, '+', n);
    if suffix.len() == 0 {
        assert(bare =~= s);
    } else {
        assert(bare[n] == suffix[0]);
        if suffix[0] == '-' {
            lemma_position_unique(bare, '-', n);
        } else {
            lemma_position_unique(bare, '+', n);
        }
    }
    assert(bare.take(n) =~= s);
}

proof fn lemma_not_before(s: Seq<char>, c: char, n: int)
    requires
        0 <= n <= s.len(),
        forall|k: int| 0 <= k < n ==> s[k] != c,
    ensures
        n <= position_of(s, c) <= s.len(),
    decreases n,
{
    if n > 0 {
        assert(s[0] != c);
        let r = s.skip(1);
        assert forall|k: int| 0 <= k < n - 1 implies r[k] != c by {
            assert(r[k] == s[k + 1]);
        }
        lemma_not_before(r, c, n - 1);
    } else {
        lemma_position_bound(s, c);
    }
}

proof fn lemma_position_bound(s: Seq<char>, c: char)
    ensures
        0 <= position_of(s, c) <= s.len(),
    decreases s.len(),
{
    if s.len() > 0 && s[0] != c {
        lemma_position_bound(s.skip(1), c);
    }
}

/// A tag that does not start with a number, a `v` aside, names no version.
pub proof fn versions_start_with_a_number(tag: Seq<char>)
    requires
        trimmed(tag).len() > 0 ==> !('0' <= trimmed(tag)[0] && trimmed(tag)[0] <= '9') && (
        trimmed(tag)[0] == 'v' || trimmed(tag)[0] == 'V' ==> trimmed(tag).len() == 1 || !('0'
            <= trimmed(tag)[1] && trimmed(tag)[1] <= '9')),
    ensures
        version_of(tag) is None,
{
    let bare = bare_tag(tag);
    let core = release_core(bare);
    lemma_position_bound(bare, '-');
    lemma_position_bound(bare, '+');
    lemma_position_bound(core, '.');
    let head = dot_head(core);
    if head.len() > 0 {
        assert(head[0] == bare[0]);
        assert(!is_digit(head[0]));
        if bare[0] == '+' {
            assert(position_of(bare, '+') == 0);
        }
    }
}

/// The machines for which there are prebuilt binaries.
pub open spec fn has_binary(machine: Machine) -> bool {
    (machine.os@ == "linux"@ || machine.os@ == "macos"@) && (machine.arch@ == "x86_64"@
        || machine.arch@ == "aarch64"@)
}

/// A self-update ends as already up to date exactly when the release is not
/// later than this version: by major number, where these are equal by minor
/// number, where these are too by patch number. A later release is installed:
/// where the release has the asset for this machine and the checksums, these
/// are fetched next.
pub proof fn later_releases_are_installed(
    release: Json,
    tag: Seq<char>,
    latest: Version,
    current: Version,
    machine: Machine,
    rec: UpdateRecord,
)
    requires
        release.text_field("tag_name"@) == Some(tag),
        version_of(tag) == Some(latest),
    ensures
        ({
            let newer = latest.major > current.major || (latest.major == current.major && (
            latest.minor > current.minor || (latest.minor == current.minor && latest.patch
                > current.patch)));
            let up_to_date = UpdateView::Done(
                Ok("update-agents: already up to date (v"@ + version_form(current) + ")\n"@),
                None,
            );
            let step = updating(release, current, machine, rec);
            &&& step == up_to_date <==> !newer
            &&& newer ==> (step matches UpdateView::Done(Ok(_), _) ==> rec.installed == Some(
                None::<String>,
            ) && (rec.content matches Some(Ok(_))))
            &&& newer && has_binary(machine) && rec.sums is None && asset_location(
                release,
                asset_name(triple_of(machine.os@, machine.arch@)->0),
            ) is Some ==> match asset_location(release, "sha256sums.txt"@) {
                Some(url) => step == UpdateView::FetchSums(url),
                None => step matches UpdateView::Done(Err(_), None),
            }
            &&& newer && has_binary(machine) && asset_location(
                release,
                asset_name(triple_of(machine.os@, machine.arch@)->0),
            ) is None ==> (step matches UpdateView::Done(Err(_), None))
            &&& newer && !has_binary(machine) ==> step == UpdateView::Done(
                Err::<Seq<char>, Seq<char>>(
                    "no prebuilt binary for "@ + machine.os@ + "/"@ + machine.arch@,
                ),
                None,
            )
        }),
{
    reveal_strlit("update-agents: already up to date (v");
    reveal_strlit("update-agents: installed v");
    reveal_strlit("linux");
    reveal_strlit("macos");
    let step = updating(release, current, machine, rec);
    let text = "update-agents: already up to date (v"@ + version_form(current) + ")\n"@;
    assert(text[15] == 'a');
    if let UpdateView::Done(Ok(other), _) = step {
        if later(latest, current) {
            assert(other[15] == 'i');
        }
    }
    assert("linux"@[0] == 'l' && "macos"@[0] == 'm');
}

/// The binary of a machine is the one for its system and its processor.
pub proof fn every_machine_has_its_own_binary(os: Seq<char>, arch: Seq<char>)
    ensures
        os == "linux"@ && arch == "x86_64"@ ==> triple_of(os, arch) == Some(
            "x86_64-unknown-linux-gnu"@,
        ),
        os == "linux"@ && arch == "aarch64"@ ==> triple_of(os, arch) == Some(
            "aarch64-unknown-linux-gnu"@,
        ),
        os == "macos"@ && arch == "x86_64"@ ==> triple_of(os, arch) == Some(
            "x86_64-apple-darwin"@,
        ),
        os == "macos"@ && arch == "aarch64"@ ==> triple_of(os, arch) == Some(
            "aarch64-apple-darwin"@,
        ),
        !((os == "linux"@ || os == "macos"@) && (arch == "x86_64"@ || arch == "aarch64"@))
            ==> triple_of(os, arch) is None,
        forall|triple: Seq<char>| #[trigger] asset_name(triple) == "update-agents-"@ + triple,
{
    reveal_strlit("linux");
    reveal_strlit("macos");
    reveal_strlit("x86_64");
    reveal_strlit("aarch64");
    assert("linux"@[0] == 'l' && "macos"@[0] == 'm');
    assert("x86_64"@[0] == 'x' && "aarch64"@[0] == 'a');
}

/// An asset is found by its name: the first one of that name, wherever it
/// stands in the list.
pub proof fn assets_are_found_by_name(release: Json, assets: Vec<Json>, name: Seq<char>, k: int)
    requires
        release.field("assets"@) == Some(Json::List(assets)),
        0 <= k <= assets@.len(),
        forall|i: int|
            0 <= i < k ==> (#[trigger] assets@[i]).text_field("name"@) != Some(name),
        k < assets@.len() ==> assets@[k].text_field("name"@) == Some(name),
    ensures
        k < assets@.len() ==> asset_location(release, name) == assets@[k].text_field(
            "browser_download_url"@,
        ),
        k == assets@.len() ==> asset_location(release, name) is None,
{
    lemma_first_asset(assets@, name, k);
}

proof fn lemma_first_asset(assets: Seq<Json>, name: Seq<char>, k: int)
    requires
        0 <= k <= assets.len(),
        forall|i: int|
            0 <= i < k ==> (#[trigger] assets[i]).text_field("name"@) != Some(name),
        k < assets.len() ==> assets[k].text_field("name"@) == Some(name),
    ensures
        asset_named(assets, name) == if k < assets.len() {
            Some(assets[k])
        } else {
            None
        },
    decreases k,
{
    if k > 0 {
        let rest = assets.skip(1);
        assert forall|i: int| 0 <= i < k - 1 implies (#[trigger] rest[i]).text_field("name"@)
            != Some(name) by {
            assert(rest[i] == assets[i + 1]);
        }
        lemma_first_asset(rest, name, k - 1);
    }
}

/// Checksums agree exactly when they have the same digits; only the case of
/// letters and white space around the published one do not matter.
pub proof fn checksums_agree_digit_by_digit(actual: Seq<char>, expected: Seq<char>)
    ensures
        same_checksum(actual, expected) <==> {
            let e = trimmed(expected);
            actual.len() == e.len() && forall|i: int|
                0 <= i < e.len() ==> #[trigger] actual[i] == e[i] || ('A' <= actual[i] && actual[i]
                    <= 'Z' && e[i] as int == actual[i] as int + 32) || ('a' <= actual[i]
                    && actual[i] <= 'z' && e[i] as int == actual[i] as int - 32)
        },
{
    let e = trimmed(expected);
    let x = lowered(actual);
    let y = lowered(e);
    let agree = actual.len() == e.len() && forall|i: int|
        0 <= i < e.len() ==> #[trigger] actual[i] == e[i] || ('A' <= actual[i] && actual[i] <= 'Z'
            && e[i] as int == actual[i] as int + 32) || ('a' <= actual[i] && actual[i] <= 'z'
            && e[i] as int == actual[i] as int - 32);
    assert(x.len() == actual.len() && y.len() == e.len());
    if x == y {
        assert forall|i: int| 0 <= i < e.len() implies #[trigger] actual[i] == e[i] || ('A'
            <= actual[i] && actual[i] <= 'Z' && e[i] as int == actual[i] as int + 32) || ('a'
            <= actual[i] && actual[i] <= 'z' && e[i] as int == actual[i] as int - 32) by {
            assert(x[i] == lower(actual[i]) && y[i] == lower(e[i]));
            lemma_lower(actual[i]);
            lemma_lower(e[i]);
        }
    }
    if agree {
        assert forall|i: int| 0 <= i < e.len() implies x[i] == y[i] by {
            assert(x[i] == lower(actual[i]) && y[i] == lower(e[i]));
            lemma_lower(actual[i]);
            lemma_lower(e[i]);
        }
        assert(x =~= y);
    }
}

proof fn lemma_lower(c: char)
    ensures
        lower(c) as int == if 'A' <= c && c <= 'Z' {
            c as int + 32
        } else {
            c as int
        },
{
}

/// The published checksum of an asset is the first word of the first line
/// whose second word is its name, stars in front of it aside; other lines do
/// not matter.
pub proof fn checksums_are_listed_by_name(
    hash: Seq<char>,
    gap: char,
    star: bool,
    name: Seq<char>,
    rest: Seq<Seq<char>>,
    asset: Seq<char>,
)
    requires
        hash.len() > 0,
        name.len() > 0,
        name[0] != '*',
        forall|i: int| 0 <= i < hash.len() ==> !white(#[trigger] hash[i]),
        forall|i: int| 0 <= i < name.len() ==> !white(#[trigger] name[i]),
        white(gap),
    ensures
        ({
            let marked = if star {
                seq!['*'] + name
            } else {
                name
            };
            let line = hash + (seq![gap] + (seq![' '] + marked));
            listed_hash(seq![line] + rest, asset) == if name == asset {
                Some(hash)
            } else {
                listed_hash(rest, asset)
            }
        }),
        listed_hash(Seq::empty(), asset) is None,
        listed_hash(seq![hash] + rest, asset) == listed_hash(rest, asset),
{
    let marked = if star {
        seq!['*'] + name
    } else {
        name
    };
    assert forall|i: int| 0 <= i < marked.len() implies !white(#[trigger] marked[i]) by {
        if star && i > 0 {
            assert(marked[i] == name[i - 1]);
        }
    }
    let line = hash + (seq![gap] + (seq![' '] + marked));
    words_are_separated_by_white_space(hash, gap, seq![' '] + marked);
    words_are_separated_by_white_space(marked, ' ', marked);
    let fields = words(line, false);
    assert(fields =~= seq![hash, marked]);
    if star {
        assert(marked.skip(1) =~= name);
    }
    reveal_with_fuel(unstarred, 2);
    assert(unstarred(marked) == name);
    let list = seq![line] + rest;
    assert(list.skip(1) =~= rest);
    words_are_separated_by_white_space(hash, ' ', hash);
    let short = seq![hash] + rest;
    assert(short.skip(1) =~= rest);
}

/// The steps of an installation in their order: with the checksum known, the
/// executable is located, the asset is downloaded next to it, read back, held
/// against the checksum, and only then renamed over the executable. Whatever
/// fails once there is a temporary file names that for removal.
pub proof fn installations_go_step_by_step(
    rec: UpdateRecord,
    asset: Seq<char>,
    url: Seq<char>,
    expected: Seq<char>,
    latest: Version,
    exe: Seq<u8>,
    tmp: Seq<u8>,
)
    ensures
        ({
            let step = placing(rec, asset, url, expected, latest, exe, tmp);
            &&& rec.downloaded is None ==> step == UpdateView::Download(url, tmp)
            &&& rec.downloaded matches Some(Some(e)) ==> step == UpdateView::Done(
                Err(e@),
                Some(tmp),
            )
            &&& rec.downloaded == Some(None::<String>) ==> {
                &&& rec.content is None ==> step == UpdateView::ReadBack(tmp)
                &&& rec.content matches Some(Err(e)) ==> step == UpdateView::Done(
                    Err(e@),
                    Some(tmp),
                )
                &&& rec.content matches Some(Ok(data)) ==> {
                    let good = same_checksum(hex_form(sha256_digest(data@)), expected);
                    &&& !good ==> (step matches UpdateView::Done(Err(_), Some(t)) && t == tmp)
                    &&& good && rec.installed is None ==> step == UpdateView::Install(tmp, exe)
                    &&& good ==> (rec.installed matches Some(Some(e)) ==> step == UpdateView::Done(
                        Err(e@),
                        Some(tmp),
                    ))
                    &&& good && rec.installed == Some(None::<String>) ==> step == UpdateView::Done(
                        Ok(
                            "update-agents: installed v"@ + version_form(latest) + " at "@
                                + utf8_lossy(exe) + "\n"@,
                        ),
                        None,
                    )
                }
            }
        }),
{
}

/// The download lies next to the executable that it replaces, under a name of
/// this process.
pub proof fn downloads_lie_next_to_the_executable(
    release: Json,
    tag: Seq<char>,
    latest: Version,
    machine: Machine,
    rec: UpdateRecord,
)
    ensures
        installing(release, tag, latest, machine, rec) matches UpdateView::Download(url, tmp)
            ==> rec.sums is Some && (rec.installation matches Some(Ok(place)) && place.dir
            matches Some(dir) && tmp == path_join(
            dir@,
            encode_utf8(".update-agents."@ + decimal(machine.pid as nat) + ".tmp"@),
        )) && asset_location(release, asset_name(triple_of(machine.os@, machine.arch@)->0))
            == Some(url),
        installing(release, tag, latest, machine, rec) matches UpdateView::Install(_, exe) ==> (
        rec.installation matches Some(Ok(place)) && place.exe@ == exe),
        installing(release, tag, latest, machine, rec) is Locate ==> rec.installation is None,
{
}

/// A remembered tag is used for a day; afterwards, or without one, the latest
/// release is asked for again. Without a usable answer nothing is said and
/// nothing is saved.
pub proof fn checks_are_made_once_a_day(
    cache: CacheView,
    now: u64,
    current: Version,
    interactive: bool,
    rec: CheckRecord,
)
    ensures
        ({
            let stale = cache.latest.len() == 0 || now - cache.checked_at >= 86_400;
            let step = check_step(cache, now, current, interactive, rec);
            &&& step is FetchRelease <==> stale && rec.release is None
            &&& stale ==> (rec.release matches Some(Err(_)) ==> step == CheckView::Done(
                Startup::Continue,
                None,
                Seq::empty(),
                Seq::empty(),
            ))
            &&& step matches CheckView::Ask(saved, _) ==> if stale {
                saved.checked_at == now && saved.latest == saved.acknowledged_version
            } else {
                saved.checked_at == cache.checked_at && saved.latest == cache.latest
                    && saved.acknowledged_version == cache.latest
            }
        }),
{
}

/// A later version that was not raised before is raised: on a terminal the
/// user is asked, else it is told; either way it is noted. Only a yes leads to
/// a self-update, and only one that succeeded ends the run.
pub proof fn later_versions_are_raised(
    tag: Seq<char>,
    latest: Version,
    cache: CacheView,
    current: Version,
    interactive: bool,
    rec: CheckRecord,
)
    requires
        version_of(tag) == Some(latest),
    ensures
        ({
            let newer = latest.major > current.major || (latest.major == current.major && (
            latest.minor > current.minor || (latest.minor == current.minor && latest.patch
                > current.patch)));
            let raised = newer && cache.acknowledged_version != tag;
            let step = notice(tag, cache, current, interactive, rec);
            let text = "update-agents: "@ + tag + " is available (you have "@ + version_form(
                current,
            );
            let noted = CacheView {
                checked_at: cache.checked_at,
                latest: cache.latest,
                acknowledged_version: tag,
            };
            &&& !raised ==> step == CheckView::Done(
                Startup::Continue,
                Some(cache),
                Seq::empty(),
                Seq::empty(),
            )
            &&& raised && !interactive ==> step == CheckView::Done(
                Startup::Continue,
                Some(noted),
                text + "); update with `update-agents self-update`.\n"@,
                Seq::empty(),
            )
            &&& raised && interactive && rec.answer is None ==> step == CheckView::Ask(
                noted,
                text + "). Update now? [y/N] "@,
            )
            &&& raised && interactive ==> (rec.answer matches Some(answer) ==> if says_yes(
                answer@,
            ) {
                &&& rec.update is None ==> step is SelfUpdate
                &&& rec.update == Some(None::<String>) ==> (step matches CheckView::Done(
                    startup,
                    None,
                    out,
                    err,
                ) && startup is Updated && err.len() == 0 && out.len() > 0)
                &&& rec.update matches Some(Some(e)) ==> step == CheckView::Done(
                    Startup::Continue,
                    None,
                    Seq::empty(),
                    "update-agents: self-update failed: "@ + e@ + "\n"@,
                )
            } else {
                step matches CheckView::Done(startup, None, out, err) && startup is Continue
                    && err.len() == 0 && out.len() > 0
            })
        }),
{
    reveal_strlit("update-agents: updated to ");
    reveal_strlit("update-agents: keeping ");
}

/// A tag that is no version is never raised.
pub proof fn unreadable_tags_are_not_raised(
    tag: Seq<char>,
    cache: CacheView,
    current: Version,
    interactive: bool,
    rec: CheckRecord,
)
    requires
        version_of(tag) is None,
    ensures
        notice(tag, cache, current, interactive, rec) == CheckView::Done(
            Startup::Continue,
            Some(cache),
            Seq::empty(),
            Seq::empty(),
        ),
{
}

/// A yes is the letter or the word, in any case, white space around it aside;
/// anything else is a no.
pub proof fn only_yes_says_yes(answer: Seq<char>)
    ensures
        says_yes(answer) <==> {
            let t = trimmed(answer);
            let first = t.len() > 0 && (t[0] == 'y' || t[0] == 'Y');
            first && (t.len() == 1 || (t.len() == 3 && (t[1] == 'e' || t[1] == 'E') && (t[2] == 's'
                || t[2] == 'S')))
        },
{
    reveal_strlit("y");
    reveal_strlit("yes");
    let t = trimmed(answer);
    let l = lowered(t);
    assert(l.len() == t.len());
    if t.len() > 0 {
        assert(l[0] == lower(t[0]));
        lemma_lower(t[0]);
    }
    if t.len() == 3 {
        assert(l[1] == lower(t[1]) && l[2] == lower(t[2]));
        lemma_lower(t[1]);
        lemma_lower(t[2]);
    }
    let first = t.len() > 0 && (t[0] == 'y' || t[0] == 'Y');
    if first && t.len() == 1 {
        assert(l =~= "y"@);
    }
    if first && t.len() == 3 && (t[1] == 'e' || t[1] == 'E') && (t[2] == 's' || t[2] == 'S') {
        assert(l =~= "yes"@);
    }
    if l == "y"@ {
        assert(l[0] == 'y');
    }
    if l == "yes"@ {
        assert(l[0] == 'y' && l[1] == 'e' && l[2] == 's');
    }
}

/// What a response or a release lacks is said in words; a mismatch names the
/// asset and both checksums.
pub proof fn faults_of_releases_are_named(
    body: Seq<char>,
    release: Json,
    asset: Seq<char>,
    expected: Seq<char>,
    actual: Seq<char>,
)
    ensures
        json_parsed(body) matches Ok(r) ==> release_of(body) == Ok::<Json, Seq<char>>(r),
        json_parsed(body) matches Err(e) ==> release_of(body) == Err::<Json, Seq<char>>(
            "cannot parse release metadata: "@ + e@,
        ),
        release.text_field("tag_name"@) matches Some(tag) ==> tag_of(release) == Ok::<
            Seq<char>,
            Seq<char>,
        >(tag),
        release.text_field("tag_name"@) is None ==> tag_of(release) == Err::<Seq<char>, Seq<char>>(
            "release metadata has no tag_name"@,
        ),
        mismatch_text(asset, expected, actual) == "checksum mismatch for "@ + asset
            + " (expected "@ + trimmed(expected) + ", got "@ + actual + ")"@,
{
}

/// What comes first in a self-update: the response that describes the latest
/// release; without a usable one it fails.
pub proof fn self_updates_start_with_the_latest_release(
    current: Version,
    machine: Machine,
    rec: UpdateRecord,
)
    ensures
        self_update(current, machine, rec) is FetchRelease <==> rec.release is None,
        rec.release matches Some(Err(e)) ==> self_update(current, machine, rec) == UpdateView::Done(
            Err::<Seq<char>, Seq<char>>(e@),
            None,
        ),
        rec.release matches Some(Ok(body)) ==> (json_parsed(body@) matches Ok(release)
            ==> self_update(current, machine, rec) == updating(release, current, machine, rec)),
{
}

/// The published checksums that could not be fetched, a missing entry and an
/// executable that cannot be located end the installation in words.
pub proof fn installations_need_checksum_and_place(
    release: Json,
    tag: Seq<char>,
    latest: Version,
    machine: Machine,
    rec: UpdateRecord,
    asset: Seq<char>,
)
    requires
        has_binary(machine),
        asset == asset_name(triple_of(machine.os@, machine.arch@)->0),
        asset_location(release, asset) is Some,
        asset_location(release, "sha256sums.txt"@) is Some,
    ensures
        ({
            let step = installing(release, tag, latest, machine, rec);
            let failed = |text: Seq<char>|
                step == UpdateView::Done(Err::<Seq<char>, Seq<char>>(text), None);
            &&& rec.sums matches Some(Err(e)) ==> failed(e@)
            &&& rec.sums matches Some(Ok(sums)) ==> {
                let hash = listed_hash(lines(sums@), asset);
                &&& hash is None ==> failed("sha256sums.txt has no entry for "@ + asset)
                &&& hash is Some && rec.installation is None ==> step is Locate
                &&& hash is Some ==> (rec.installation matches Some(Err(e)) ==> failed(
                    "cannot locate current executable: "@ + e@,
                ))
                &&& hash is Some ==> (rec.installation matches Some(Ok(place)) ==> match place.dir {
                    None => failed(
                        "cannot determine install directory of "@ + utf8_lossy(place.exe@),
                    ),
                    Some(dir) => step == placing(
                        rec,
                        asset,
                        asset_location(release, asset)->0,
                        hash->0,
                        latest,
                        place.exe@,
                        path_join(
                            dir@,
                            encode_utf8(
                                ".update-agents."@ + decimal(machine.pid as nat) + ".tmp"@,
                            ),
                        ),
                    ),
                })
            }
        }),
{
    reveal_strlit("linux");
    reveal_strlit("macos");
    assert("linux"@[0] == 'l' && "macos"@[0] == 'm');
}

/// What a step says is what it holds, each part in its own place.
pub proof fn update_steps_say_what_they_hold(
    url: String,
    tmp: PathBytes,
    exe: PathBytes,
    text: String,
)
    ensures
        UpdateStep::FetchSums(url)@ == UpdateView::FetchSums(url@),
        UpdateStep::Download(url, tmp)@ == UpdateView::Download(url@, tmp@),
        UpdateStep::ReadBack(tmp)@ == UpdateView::ReadBack(tmp@),
        UpdateStep::Install(tmp, exe)@ == UpdateView::Install(tmp@, exe@),
        UpdateStep::Done(Ok(text), None)@ == UpdateView::Done(
            Ok::<Seq<char>, Seq<char>>(text@),
            None,
        ),
        UpdateStep::Done(Err(text), Some(tmp))@ == UpdateView::Done(
            Err::<Seq<char>, Seq<char>>(text@),
            Some(tmp@),
        ),
        UpdateStep::FetchRelease@ is FetchRelease,
        UpdateStep::Locate@ is Locate,
{
}

/// The same of the steps of a startup check and what it remembers.
pub proof fn check_steps_say_what_they_hold(cache: Cache, prompt: String, end: CheckEnd)
    ensures
        cache@.checked_at == cache.checked_at,
        cache@.latest == cache.latest@,
        cache@.acknowledged_version == cache.acknowledged_version@,
        CheckStep::Ask(cache, prompt)@ == CheckView::Ask(cache@, prompt@),
        CheckStep::Done(end)@ matches CheckView::Done(startup, save, out, err) && startup
            == end.startup && out == end.out@ && err == end.err@ && (save is Some <==> end.save
            is Some) && (end.save matches Some(c) ==> save == Some(c@)),
        CheckStep::FetchRelease@ is FetchRelease,
        CheckStep::SelfUpdate@ is SelfUpdate,
{
}

/// A check that asked anew goes by the tag it was told and remembers it with
/// the time; one that did not goes by the tag it remembers. An answer that
/// names no tag is passed over.
pub proof fn checks_go_by_the_latest_tag(
    cache: CacheView,
    now: u64,
    current: Version,
    interactive: bool,
    rec: CheckRecord,
)
    ensures
        ({
            let stale = cache.latest.len() == 0 || now - cache.checked_at >= 86_400;
            let step = check_step(cache, now, current, interactive, rec);
            &&& !stale ==> step == notice(cache.latest, cache, current, interactive, rec)
            &&& stale ==> (rec.release matches Some(Ok(body)) ==> match latest_of(body@) {
                Ok(tag) => step == notice(
                    tag,
                    CacheView {
                        checked_at: now,
                        latest: tag,
                        acknowledged_version: cache.acknowledged_version,
                    },
                    current,
                    interactive,
                    rec,
                ),
                Err(_) => step == CheckView::Done(
                    Startup::Continue,
                    None,
                    Seq::empty(),
                    Seq::empty(),
                ),
            })
        }),
{
}

/// The tag of a response is that of the release it describes.
pub proof fn responses_name_the_tag_of_their_release(body: Seq<char>, release: Json)
    requires
        json_parsed(body) == Ok::<Json, String>(release),
    ensures
        release.text_field("tag_name"@) matches Some(tag) ==> latest_of(body) == Ok::<
            Seq<char>,
            Seq<char>,
        >(tag),
        release.text_field("tag_name"@) is None ==> latest_of(body) is Err,
{
}

/// Versions compare by their numbers: the major one first, then the minor one,
/// then the patch.
pub proof fn versions_compare_by_their_numbers(a: Version, b: Version)
    ensures
        a.partial_cmp_spec(&b) == Some(std::cmp::Ordering::Greater) <==> a.major > b.major || (
        a.major == b.major && (a.minor > b.minor || (a.minor == b.minor && a.patch > b.patch))),
        a.partial_cmp_spec(&b) == Some(std::cmp::Ordering::Less) <==> a.major < b.major || (a.major
            == b.major && (a.minor < b.minor || (a.minor == b.minor && a.patch < b.patch))),
        a.partial_cmp_spec(&b) == Some(std::cmp::Ordering::Equal) <==> a.major == b.major
            && a.minor == b.minor && a.patch == b.patch,
{
}

} // verus!
