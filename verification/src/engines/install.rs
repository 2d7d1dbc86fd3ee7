//! Runtime installation: turns a manifest's recipe into a list of steps.
//!
//! A manual recipe gives guidance. The others download one artifact, check it,
//! unpack it and put the binary in place; a binary that is missing afterwards
//! is a loud failure.
use vstd::prelude::*;
use vstd::string::{StrSliceExecFns, StringExecFns};

use crate::paths::{chars_last_pos, last_pos, path_key, path_sort_key};
use crate::runtime::{path_in, path_join, InstallRecipe, RuntimeManifest};
use crate::text::{
    ascii_lower, clone_opt, contains, has_suffix, lowercased, opt_str, opt_text, owned,
    parse_number, parse_number_of, replace, same, same_ignoring_ascii_case, slice_string,
    str_contains, str_has_suffix, str_lower, str_replace, str_trim, str_words, texts, to_chars,
    trim, until, words,
};

verus! {

/// A download without open decisions.
#[derive(Debug, Clone, PartialEq)]
pub struct InstallPlan {
    pub url: String,
    pub filename: String,
    pub unpack: Unpack,
    pub bin_path: String,
    pub sha256: Option<String>,
    pub version: String,
}

#[derive(Debug, Clone, Copy, PartialEq, Eq, Structural)]
pub enum Unpack {
    Zip,
    TarGz,
    /// The artifact is the binary.
    Plain,
}

/// What a recipe resolves to.
#[derive(Debug, Clone, PartialEq)]
pub enum Resolved {
    Manual { url: String, instructions: String },
    Download(InstallPlan),
}

/// An asset of a release.
#[derive(Debug, Clone, PartialEq)]
pub struct GhAsset {
    pub name: String,
    pub browser_download_url: String,
}

/// A release of a repository.
#[derive(Debug, Clone, PartialEq)]
pub struct GhRelease {
    pub tag_name: String,
    pub assets: Vec<GhAsset>,
}

/// The asset can be downloaded, and its name contains the pattern without
/// regard to case.
pub open spec fn asset_matches(a: GhAsset, pattern: Seq<char>) -> bool {
    a.browser_download_url@.len() > 0 && contains(lowercased(a.name@), lowercased(pattern))
}

/// The first matching asset at or after `i`.
pub open spec fn asset_from(assets: Seq<GhAsset>, pattern: Seq<char>, i: int) -> Option<int>
    decreases assets.len() - i,
{
    if i < 0 || i >= assets.len() {
        None
    } else if asset_matches(assets[i], pattern) {
        Some(i)
    } else {
        asset_from(assets, pattern, i + 1)
    }
}

/// The first matching asset of a release.
pub fn pick_asset<'a>(assets: &'a Vec<GhAsset>, pattern: &str) -> (r: Option<&'a GhAsset>)
    ensures
        match r {
            Some(a) => asset_from(assets@, pattern@, 0) is Some && *a == assets@[asset_from(
                assets@,
                pattern@,
                0,
            )->0],
            None => asset_from(assets@, pattern@, 0) is None,
        },
{
    let pat = str_lower(pattern);
    let mut i: usize = 0;
    while i < assets.len()
        invariant
            pat@ == lowercased(pattern@),
            i <= assets@.len(),
            asset_from(assets@, pattern@, 0) == asset_from(assets@, pattern@, i as int),
        decreases assets@.len() - i,
    {
        let a = &assets[i];
        if !a.browser_download_url.as_str().is_empty() && str_contains(
            str_lower(a.name.as_str()).as_str(),
            pat.as_str(),
        ) {
            return Some(a);
        }
        i = i + 1;
    }
    None
}

/// How an artifact is unpacked: as declared, else as its name says.
pub open spec fn unpack_of(declared: Option<Seq<char>>, filename: Seq<char>) -> Unpack {
    let d = match declared {
        Some(d) => d,
        None => Seq::empty(),
    };
    let lower = lowercased(filename);
    if d == "zip"@ {
        Unpack::Zip
    } else if d == "tar.gz"@ || d == "tgz"@ || d == "tar"@ {
        Unpack::TarGz
    } else if d == "none"@ {
        Unpack::Plain
    } else if has_suffix(lower, ".zip"@) {
        Unpack::Zip
    } else if has_suffix(lower, ".tar.gz"@) || has_suffix(lower, ".tgz"@) {
        Unpack::TarGz
    } else {
        Unpack::Plain
    }
}

/// How an artifact is unpacked.
pub fn unpack_mode(declared: Option<&str>, filename: &str) -> (r: Unpack)
    ensures
        r == unpack_of(opt_str(declared), filename@),
{
    let lower = str_lower(filename);
    let empty = String::new();
    let d = match declared {
        Some(d) => d,
        None => empty.as_str(),
    };
    proof {
        if declared is None {
            assert(d@ =~= Seq::<char>::empty());
        }
    }
    if same(d, "zip") {
        Unpack::Zip
    } else if same(d, "tar.gz") || same(d, "tgz") || same(d, "tar") {
        Unpack::TarGz
    } else if same(d, "none") {
        Unpack::Plain
    } else if str_has_suffix(lower.as_str(), ".zip") {
        Unpack::Zip
    } else if str_has_suffix(lower.as_str(), ".tar.gz") || str_has_suffix(lower.as_str(), ".tgz") {
        Unpack::TarGz
    } else {
        Unpack::Plain
    }
}

/// The path of a binary with the version filled in.
pub open spec fn tagged(bin_path: Seq<char>, version: Seq<char>) -> Seq<char> {
    replace(replace(bin_path, "{tag}"@, version), "{version}"@, version)
}

/// The path of a binary with the version filled in.
pub fn substitute_tag(bin_path: &str, version: &str) -> (r: String)
    ensures
        r@ == tagged(bin_path@, version@),
{
    proof {
        reveal_strlit("{tag}");
        reveal_strlit("{version}");
    }
    let first = str_replace(bin_path, "{tag}", version);
    str_replace(first.as_str(), "{version}", version)
}

/// The name of the file at an address: what follows the last slash, up to a
/// question mark.
pub open spec fn name_in_url(url: Seq<char>) -> Seq<char> {
    let last = match last_pos(url, '/') {
        Some(i) => url.skip(i + 1),
        None => url,
    };
    last.take(until(last, '?') as int)
}

/// The name of an artifact: as given, else as its address says.
pub open spec fn artifact_name(url: Seq<char>, explicit: Option<Seq<char>>) -> Seq<char> {
    if explicit is Some && explicit->0.len() > 0 {
        explicit->0
    } else if name_in_url(url).len() > 0 {
        name_in_url(url)
    } else {
        "artifact"@
    }
}

/// The name of an artifact.
pub fn filename_of(url: &str, explicit: Option<&str>) -> (r: String)
    ensures
        r@ == artifact_name(url@, opt_str(explicit)),
{
    match explicit {
        Some(f) => {
            if !f.is_empty() {
                return owned(f);
            }
        },
        None => {},
    }
    let v = to_chars(url);
    let n = v.len();
    assert(v@.take(n as int) =~= url@);
    let from: usize = match chars_last_pos(&v, '/', n) {
        Some(i) => i + 1,
        None => 0,
    };
    let ghost last = match last_pos(url@, '/') {
        Some(i) => url@.skip(i + 1),
        None => url@,
    };
    assert(last =~= v@.skip(from as int));
    let to = crate::text::chars_until(&v, '?', from);
    let name = slice_string(&v, from, to);
    assert(name@ =~= name_in_url(url@));
    if name.as_str().is_empty() {
        owned("artifact")
    } else {
        name
    }
}

/// The number of a tag of the form `bNNNN`.
pub open spec fn btag_number(tag: Seq<char>) -> Option<nat> {
    if tag.len() > 0 && tag[0] == 'b' {
        parse_number(tag.drop_first(), u64::MAX as nat)
    } else {
        None
    }
}

/// The number of a tag of the form `bNNNN`.
pub fn parse_btag(tag: &str) -> (r: Option<u64>)
    ensures
        match r {
            Some(n) => btag_number(tag@) == Some(n as nat),
            None => btag_number(tag@) is None,
        },
{
    let n = tag.unicode_len();
    if n > 0 && tag.get_char(0) == 'b' {
        let rest = tag.substring_char(1, n);
        assert(rest@ =~= tag@.drop_first());
        parse_number_of(rest, 0xffff_ffff_ffff_ffff)
    } else {
        None
    }
}

/// A version is newer: by number where both tags have one, else where it is
/// different.
pub open spec fn newer(latest: Seq<char>, current: Seq<char>) -> bool {
    match (btag_number(latest), btag_number(current)) {
        (Some(l), Some(c)) => l > c,
        _ => latest != current,
    }
}

/// Whether a version is newer.
pub fn is_newer(latest: &str, current: &str) -> (r: bool)
    ensures
        r == newer(latest@, current@),
{
    match (parse_btag(latest), parse_btag(current)) {
        (Some(l), Some(c)) => l > c,
        _ => !same(latest, current),
    }
}

/// No version is newer than itself, and of two numbered ones not both are
/// newer.
pub proof fn law_newer_is_strict(a: Seq<char>, b: Seq<char>)
    ensures
        !newer(a, a),
        btag_number(a) is Some && btag_number(b) is Some && newer(a, b) ==> !newer(b, a),
{
}

/// The first release at or after `i` that has a matching asset.
pub open spec fn release_from(rs: Seq<GhRelease>, pattern: Seq<char>, i: int) -> Option<int>
    decreases rs.len() - i,
{
    if i < 0 || i >= rs.len() {
        None
    } else if asset_from(rs[i].assets@, pattern, 0) is Some {
        Some(i)
    } else {
        release_from(rs, pattern, i + 1)
    }
}

/// The first release at or after `i` with a tag.
pub open spec fn tagged_from(rs: Seq<GhRelease>, tag: Seq<char>, i: int) -> Option<int>
    decreases rs.len() - i,
{
    if i < 0 || i >= rs.len() {
        None
    } else if rs[i].tag_name@ == tag {
        Some(i)
    } else {
        tagged_from(rs, tag, i + 1)
    }
}

fn find_release(rs: &Vec<GhRelease>, pattern: &str) -> (r: Option<usize>)
    ensures
        match r {
            Some(i) => release_from(rs@, pattern@, 0) == Some(i as int) && i < rs@.len()
                && asset_from(rs@[i as int].assets@, pattern@, 0) is Some,
            None => release_from(rs@, pattern@, 0) is None,
        },
{
    let mut i: usize = 0;
    while i < rs.len()
        invariant
            i <= rs@.len(),
            release_from(rs@, pattern@, 0) == release_from(rs@, pattern@, i as int),
        decreases rs@.len() - i,
    {
        if pick_asset(&rs[i].assets, pattern).is_some() {
            return Some(i);
        }
        i = i + 1;
    }
    None
}

fn find_tagged(rs: &Vec<GhRelease>, tag: &str) -> (r: Option<usize>)
    ensures
        match r {
            Some(i) => tagged_from(rs@, tag@, 0) == Some(i as int) && i < rs@.len(),
            None => tagged_from(rs@, tag@, 0) is None,
        },
{
    let mut i: usize = 0;
    while i < rs.len()
        invariant
            i <= rs@.len(),
            tagged_from(rs@, tag@, 0) == tagged_from(rs@, tag@, i as int),
        decreases rs@.len() - i,
    {
        if same(rs[i].tag_name.as_str(), tag) {
            return Some(i);
        }
        i = i + 1;
    }
    None
}

/// The newest tag of a repository that has a matching asset. `releases` are
/// the repository's last ones, newest first.
pub fn latest_matching_tag(releases: &Vec<GhRelease>, repo: &str, pattern: &str) -> (r: Result<
    String,
    String,
>)
    ensures
        match release_from(releases@, pattern@, 0) {
            Some(i) => r is Ok && r->Ok_0@ == releases@[i].tag_name@,
            None => r is Err && r->Err_0@ == "no release of "@ + repo@ + " (last 10) matches '"@
                + pattern@ + "'"@,
        },
{
    match find_release(releases, pattern) {
        Some(i) => Ok(owned(releases[i].tag_name.as_str())),
        None => {
            let mut e = owned("no release of ");
            e.append(repo);
            e.append(" (last 10) matches '");
            e.append(pattern);
            e.append("'");
            Err(e)
        },
    }
}

/// The plan downloads these bytes under these names.
pub open spec fn is_download(
    p: InstallPlan,
    url: Seq<char>,
    filename: Seq<char>,
    unpack: Unpack,
    bin_path: Seq<char>,
    sha256: Option<Seq<char>>,
    version: Seq<char>,
) -> bool {
    &&& p.url@ == url
    &&& p.filename@ == filename
    &&& p.unpack == unpack
    &&& p.bin_path@ == bin_path
    &&& opt_text(p.sha256) == sha256
    &&& p.version@ == version
}

/// What a release recipe resolves to: the pinned release, or the newest that
/// has a matching asset.
pub open spec fn release_resolves(
    r: Result<Resolved, String>,
    rs: Seq<GhRelease>,
    repo: Seq<char>,
    pattern: Seq<char>,
    unpack: Option<Seq<char>>,
    bin_path: Seq<char>,
    want: Option<Seq<char>>,
    sha256: Option<Seq<char>>,
) -> bool {
    let found = match want {
        Some(t) => tagged_from(rs, t, 0),
        None => release_from(rs, pattern, 0),
    };
    match found {
        None => r is Err && r->Err_0@ == match want {
            Some(t) => "repo "@ + repo + " has no release tagged '"@ + t + "'"@,
            None => "no release of "@ + repo + " (last 10) has an asset matching '"@ + pattern
                + "'"@,
        },
        Some(i) => match asset_from(rs[i].assets@, pattern, 0) {
            None => r is Err && want is Some && r->Err_0@ == "release "@ + want->0 + " of "@ + repo
                + " has no asset matching '"@ + pattern + "'"@,
            Some(k) => {
                let url = rs[i].assets@[k].browser_download_url@;
                let filename = artifact_name(url, None);
                let tag = rs[i].tag_name@;
                &&& r is Ok
                &&& r->Ok_0 is Download
                &&& is_download(
                    r->Ok_0->Download_0,
                    url,
                    filename,
                    unpack_of(unpack, filename),
                    tagged(bin_path, tag),
                    sha256,
                    tag,
                )
            },
        },
    }
}

/// What a manifest's recipe resolves to.
pub open spec fn resolves_to(
    r: Result<Resolved, String>,
    m: RuntimeManifest,
    tag: Option<Seq<char>>,
    rs: Seq<GhRelease>,
) -> bool {
    match m.install {
        None => r is Err && r->Err_0@ == "runtime '"@ + m.id@ + "' declares no install recipe"@,
        Some(InstallRecipe::Manual { url, instructions }) => r is Ok && r->Ok_0 is Manual
            && r->Ok_0->Manual_url@ == url@ && r->Ok_0->instructions@ == instructions@,
        Some(InstallRecipe::Url { url, filename, unpack, bin_path, sha256 }) => {
            let name = artifact_name(url@, opt_text(filename));
            &&& r is Ok
            &&& r->Ok_0 is Download
            &&& is_download(
                r->Ok_0->Download_0,
                url@,
                name,
                unpack_of(opt_text(unpack), name),
                tagged(bin_path@, name),
                opt_text(sha256),
                name,
            )
        },
        Some(
            InstallRecipe::GithubRelease {
                repo,
                asset_pattern,
                unpack,
                bin_path,
                tag: pinned,
                sha256,
            },
        ) => release_resolves(
            r,
            rs,
            repo@,
            asset_pattern@,
            opt_text(unpack),
            bin_path@,
            match tag {
                Some(t) => Some(t),
                None => opt_text(pinned),
            },
            opt_text(sha256),
        ),
    }
}

fn as_opt_str(o: &Option<String>) -> (r: Option<&str>)
    ensures
        opt_str(r) == opt_text(*o),
{
    match o {
        Some(s) => Some(s.as_str()),
        None => None,
    }
}

/// The repository whose releases a recipe needs.
pub fn needed_repo(m: &RuntimeManifest) -> (r: Option<&str>)
    ensures
        opt_str(r) == match m.install {
            Some(
                InstallRecipe::GithubRelease {
                    repo,
                    asset_pattern,
                    unpack,
                    bin_path,
                    tag,
                    sha256,
                },
            ) => Some(repo@),
            _ => None,
        },
{
    match &m.install {
        Some(
            InstallRecipe::GithubRelease {
                repo,
                asset_pattern: _,
                unpack: _,
                bin_path: _,
                tag: _,
                sha256: _,
            },
        ) => Some(repo.as_str()),
        _ => None,
    }
}

fn resolve_release(
    rs: &Vec<GhRelease>,
    repo: &str,
    pattern: &str,
    unpack: &Option<String>,
    bin_path: &str,
    want: Option<&str>,
    sha256: &Option<String>,
) -> (r: Result<Resolved, String>)
    ensures
        release_resolves(
            r,
            rs@,
            repo@,
            pattern@,
            opt_text(*unpack),
            bin_path@,
            opt_str(want),
            opt_text(*sha256),
        ),
{
    let found = match want {
        Some(t) => find_tagged(rs, t),
        None => find_release(rs, pattern),
    };
    let i = match found {
        Some(i) => i,
        None => {
            let e = match want {
                Some(t) => {
                    let mut e = owned("repo ");
                    e.append(repo);
                    e.append(" has no release tagged '");
                    e.append(t);
                    e.append("'");
                    e
                },
                None => {
                    let mut e = owned("no release of ");
                    e.append(repo);
                    e.append(" (last 10) has an asset matching '");
                    e.append(pattern);
                    e.append("'");
                    e
                },
            };
            return Err(e);
        },
    };
    let rel = &rs[i];
    let asset = match pick_asset(&rel.assets, pattern) {
        Some(a) => a,
        None => {
            let mut e = owned("release ");
            match want {
                Some(t) => e.append(t),
                None => {},
            }
            e.append(" of ");
            e.append(repo);
            e.append(" has no asset matching '");
            e.append(pattern);
            e.append("'");
            return Err(e);
        },
    };
    let filename = filename_of(asset.browser_download_url.as_str(), None);
    Ok(
        Resolved::Download(
            InstallPlan {
                url: owned(asset.browser_download_url.as_str()),
                unpack: unpack_mode(as_opt_str(unpack), filename.as_str()),
                filename,
                bin_path: substitute_tag(bin_path, rel.tag_name.as_str()),
                sha256: clone_opt(sha256),
                version: owned(rel.tag_name.as_str()),
            },
        ),
    )
}

/// Resolves a manifest's recipe. `tag` pins a release; `releases` are those of
/// the repository that the recipe needs, newest first.
pub fn resolve_recipe(manifest: &RuntimeManifest, tag: Option<&str>, releases: &Vec<GhRelease>) -> (r:
    Result<Resolved, String>)
    ensures
        resolves_to(r, *manifest, opt_str(tag), releases@),
{
    match &manifest.install {
        None => {
            let mut e = owned("runtime '");
            e.append(manifest.id.as_str());
            e.append("' declares no install recipe");
            Err(e)
        },
        Some(InstallRecipe::Manual { url, instructions }) => Ok(
            Resolved::Manual {
                url: owned(url.as_str()),
                instructions: owned(instructions.as_str()),
            },
        ),
        Some(InstallRecipe::Url { url, filename, unpack, bin_path, sha256 }) => {
            let name = filename_of(url.as_str(), as_opt_str(filename));
            Ok(
                Resolved::Download(
                    InstallPlan {
                        url: owned(url.as_str()),
                        version: owned(name.as_str()),
                        unpack: unpack_mode(as_opt_str(unpack), name.as_str()),
                        bin_path: substitute_tag(bin_path.as_str(), name.as_str()),
                        sha256: clone_opt(sha256),
                        filename: name,
                    },
                ),
            )
        },
        Some(InstallRecipe::GithubRelease { repo, asset_pattern, unpack, bin_path, tag: pinned, sha256 }) => {
            let want = match tag {
                Some(t) => Some(t),
                None => as_opt_str(pinned),
            };
            resolve_release(
                releases,
                repo.as_str(),
                asset_pattern.as_str(),
                unpack,
                bin_path.as_str(),
                want,
                sha256,
            )
        },
    }
}


/// The checksum tool's report names the wanted sum: its first word is it,
/// without regard to the case of ASCII letters.
pub open spec fn sum_matches(report: Seq<char>, want: Seq<char>) -> bool {
    let w = words(report);
    ascii_lower(
        if w.len() > 0 {
            w[0]
        } else {
            Seq::empty()
        },
    ) == ascii_lower(trim(want))
}

/// Checks the checksum tool's report on a file.
pub fn verify_sha256(file: &str, report: &str, want: &str) -> (r: Result<(), String>)
    ensures
        match r {
            Ok(_) => sum_matches(report@, want@),
            Err(e) => !sum_matches(report@, want@) && e@ == "sha256 mismatch for "@ + file@
                + " (download corrupt or hijacked)"@,
        },
{
    let w = str_words(report);
    let got = if w.len() > 0 {
        assert(texts(w@)[0] == w@[0]@);
        owned(w[0].as_str())
    } else {
        assert(texts(w@).len() == 0);
        String::new()
    };
    proof {
        if w@.len() == 0 {
            assert(got@ =~= Seq::<char>::empty());
        }
    }
    if same_ignoring_ascii_case(got.as_str(), str_trim(want).as_str()) {
        Ok(())
    } else {
        let mut e = owned("sha256 mismatch for ");
        e.append(file);
        e.append(" (download corrupt or hijacked)");
        Err(e)
    }
}

/// One step of an installation.
#[derive(Debug, Clone, PartialEq)]
pub enum InstallStep {
    /// Tell the user.
    Say(String),
    /// Create a directory and those above it.
    EnsureDir(String),
    /// Run a program with arguments; it must succeed.
    Run(String, Vec<String>),
    /// Check the sum of a file.
    CheckSum { file: String, want: String },
    /// Move a file.
    Rename { from: String, to: String },
    /// The file must be there; else the message is the error.
    RequireFile { path: String, message: String },
    /// Make a file executable.
    MakeExecutable(String),
}

/// What a step says.
pub enum StepView {
    Say(Seq<char>),
    EnsureDir(Seq<char>),
    Run(Seq<char>, Seq<Seq<char>>),
    CheckSum(Seq<char>, Seq<char>),
    Rename(Seq<char>, Seq<char>),
    RequireFile(Seq<char>, Seq<char>),
    MakeExecutable(Seq<char>),
}

impl View for InstallStep {
    type V = StepView;

    open spec fn view(&self) -> StepView {
        match self {
            InstallStep::Say(s) => StepView::Say(s@),
            InstallStep::EnsureDir(d) => StepView::EnsureDir(d@),
            InstallStep::Run(c, a) => StepView::Run(c@, texts(a@)),
            InstallStep::CheckSum { file, want } => StepView::CheckSum(file@, want@),
            InstallStep::Rename { from, to } => StepView::Rename(from@, to@),
            InstallStep::RequireFile { path, message } => StepView::RequireFile(path@, message@),
            InstallStep::MakeExecutable(p) => StepView::MakeExecutable(p@),
        }
    }
}

pub open spec fn step_views(v: Seq<InstallStep>) -> Seq<StepView> {
    Seq::new(v.len(), |i: int| v[i]@)
}

/// A path under a directory; an absolute path stands for itself.
pub open spec fn under(dir: Seq<char>, path: Seq<char>) -> Seq<char> {
    if path.len() > 0 && path[0] == '/' {
        path
    } else {
        path_in(dir, path)
    }
}

fn path_under(dir: &str, path: &str) -> (r: String)
    ensures
        r@ == under(dir@, path@),
{
    if path.unicode_len() > 0 && path.get_char(0) == '/' {
        owned(path)
    } else {
        path_join(dir, path)
    }
}

/// The directory of a file: what stands before the last slash.
pub open spec fn dir_of(path: Seq<char>) -> Seq<char> {
    match last_pos(path, '/') {
        Some(i) => if i == 0 {
            path.take(1)
        } else {
            path.take(i)
        },
        None => Seq::empty(),
    }
}

fn path_dir(path: &str) -> (r: String)
    ensures
        r@ == dir_of(path@),
{
    let v = to_chars(path);
    let n = v.len();
    assert(v@.take(n as int) =~= path@);
    match chars_last_pos(&v, '/', n) {
        Some(i) => {
            let end: usize = if i == 0 {
                1
            } else {
                i
            };
            let r = slice_string(&v, 0, end);
            assert(r@ =~= path@.take(end as int));
            r
        },
        None => {
            let r = String::new();
            assert(r@ =~= Seq::<char>::empty());
            r
        },
    }
}

/// The file that is downloaded.
pub open spec fn plan_file(p: InstallPlan, dest: Seq<char>) -> Seq<char> {
    under(dest, p.filename@)
}

/// The binary that is installed.
pub open spec fn plan_bin(p: InstallPlan, dest: Seq<char>) -> Seq<char> {
    under(dest, p.bin_path@)
}

/// The steps that fetch the artifact.
pub open spec fn fetch_steps(p: InstallPlan, dest: Seq<char>) -> Seq<StepView> {
    seq![
        StepView::EnsureDir(dest),
        StepView::Say("downloading "@ + p.url@ + " ("@ + p.version@ + ")"@),
        StepView::Run(
            "curl"@,
            seq![
                "-sSL"@,
                "--fail"@,
                "--show-error"@,
                "--retry"@,
                "2"@,
                "-o"@,
                plan_file(p, dest),
                p.url@,
            ],
        ),
    ]
}

/// The steps that check the artifact.
pub open spec fn check_steps(p: InstallPlan, dest: Seq<char>) -> Seq<StepView> {
    match opt_text(p.sha256) {
        Some(sum) => seq![
            StepView::Say("verifying sha256"@),
            StepView::CheckSum(plan_file(p, dest), sum),
        ],
        None => Seq::empty(),
    }
}

/// The steps that unpack the artifact, or put it in place where it is the
/// binary.
pub open spec fn unpack_steps(p: InstallPlan, dest: Seq<char>) -> Seq<StepView> {
    let file = plan_file(p, dest);
    let bin = plan_bin(p, dest);
    match p.unpack {
        Unpack::Zip => seq![
            StepView::Say("unpacking "@ + p.filename@ + " (zip)"@),
            StepView::Run("unzip"@, seq!["-o"@, "-q"@, file, "-d"@, dest]),
        ],
        Unpack::TarGz => seq![
            StepView::Say("unpacking "@ + p.filename@ + " (tar.gz)"@),
            StepView::Run("tar"@, seq!["xzf"@, file, "-C"@, dest]),
        ],
        Unpack::Plain => if path_key(file) != path_key(bin) {
            seq![StepView::EnsureDir(dir_of(bin)), StepView::Rename(file, bin)]
        } else {
            Seq::empty()
        },
    }
}

/// The steps that make sure of the binary.
pub open spec fn finish_steps(p: InstallPlan, dest: Seq<char>) -> Seq<StepView> {
    let bin = plan_bin(p, dest);
    seq![
        StepView::RequireFile(
            bin,
            "installed tree has no executable at "@ + bin
                + " — recipe bin_path is wrong, nothing was registered"@,
        ),
        StepView::MakeExecutable(bin),
        StepView::Say("installed "@ + bin),
    ]
}

/// The steps of an installation. Each is taken only where those before it
/// succeeded.
pub open spec fn install_steps(p: InstallPlan, dest: Seq<char>) -> Seq<StepView> {
    fetch_steps(p, dest) + check_steps(p, dest) + unpack_steps(p, dest) + finish_steps(p, dest)
}

fn cat2(a: &str, b: &str) -> (r: String)
    ensures
        r@ == a@ + b@,
{
    let mut r = owned(a);
    r.append(b);
    r
}

fn args(v: &Vec<&str>) -> (r: Vec<String>)
    ensures
        texts(r@) == Seq::new(v@.len(), |i: int| v@[i]@),
{
    let mut r: Vec<String> = Vec::new();
    let mut i: usize = 0;
    while i < v.len()
        invariant
            i <= v@.len(),
            r@.len() == i,
            forall|j: int| 0 <= j < i ==> (#[trigger] r@[j])@ == v@[j]@,
        decreases v@.len() - i,
    {
        r.push(owned(v[i]));
        i = i + 1;
    }
    assert(texts(r@) =~= Seq::new(v@.len(), |i: int| v@[i]@));
    r
}

fn fetch(p: &InstallPlan, dest: &str, file: &str) -> (r: Vec<InstallStep>)
    requires
        file@ == plan_file(*p, dest@),
    ensures
        step_views(r@) == fetch_steps(*p, dest@),
{
    let mut say = owned("downloading ");
    say.append(p.url.as_str());
    say.append(" (");
    say.append(p.version.as_str());
    say.append(")");
    let a = args(
        &vec!["-sSL", "--fail", "--show-error", "--retry", "2", "-o", file, p.url.as_str()],
    );
    assert(texts(a@) =~= seq![
        "-sSL"@,
        "--fail"@,
        "--show-error"@,
        "--retry"@,
        "2"@,
        "-o"@,
        file@,
        p.url@,
    ]);
    let mut r: Vec<InstallStep> = Vec::new();
    r.push(InstallStep::EnsureDir(owned(dest)));
    r.push(InstallStep::Say(say));
    r.push(InstallStep::Run(owned("curl"), a));
    assert(step_views(r@) =~= fetch_steps(*p, dest@));
    r
}

fn unpack(p: &InstallPlan, dest: &str, file: &str, bin: &str) -> (r: Vec<InstallStep>)
    requires
        file@ == plan_file(*p, dest@),
        bin@ == plan_bin(*p, dest@),
    ensures
        step_views(r@) == unpack_steps(*p, dest@),
{
    let mut r: Vec<InstallStep> = Vec::new();
    match p.unpack {
        Unpack::Zip => {
            let mut say = cat2("unpacking ", p.filename.as_str());
            say.append(" (zip)");
            let a = args(&vec!["-o", "-q", file, "-d", dest]);
            assert(texts(a@) =~= seq!["-o"@, "-q"@, file@, "-d"@, dest@]);
            r.push(InstallStep::Say(say));
            r.push(InstallStep::Run(owned("unzip"), a));
        },
        Unpack::TarGz => {
            let mut say = cat2("unpacking ", p.filename.as_str());
            say.append(" (tar.gz)");
            let a = args(&vec!["xzf", file, "-C", dest]);
            assert(texts(a@) =~= seq!["xzf"@, file@, "-C"@, dest@]);
            r.push(InstallStep::Say(say));
            r.push(InstallStep::Run(owned("tar"), a));
        },
        Unpack::Plain => {
            if !same(path_sort_key(file).as_str(), path_sort_key(bin).as_str()) {
                r.push(InstallStep::EnsureDir(path_dir(bin)));
                r.push(InstallStep::Rename { from: owned(file), to: owned(bin) });
            }
        },
    }
    assert(step_views(r@) =~= unpack_steps(*p, dest@));
    r
}

fn push_steps(to: &mut Vec<InstallStep>, more: Vec<InstallStep>)
    ensures
        step_views(final(to)@) == step_views(old(to)@) + step_views(more@),
{
    let ghost before = to@;
    let ghost extra = more@;
    let mut more = more;
    to.append(&mut more);
    assert(to@ =~= before + extra);
    assert(step_views(to@) =~= step_views(before) + step_views(extra));
}

/// The steps that carry a plan out in a directory, and the binary that they
/// install.
pub fn execute(plan: &InstallPlan, dest_dir: &str) -> (r: (Vec<InstallStep>, String))
    ensures
        step_views(r.0@) == install_steps(*plan, dest_dir@),
        r.1@ == plan_bin(*plan, dest_dir@),
{
    let file = path_under(dest_dir, plan.filename.as_str());
    let bin = path_under(dest_dir, plan.bin_path.as_str());
    let mut steps = fetch(plan, dest_dir, file.as_str());
    let mut check: Vec<InstallStep> = Vec::new();
    match &plan.sha256 {
        Some(sum) => {
            check.push(InstallStep::Say(owned("verifying sha256")));
            check.push(
                InstallStep::CheckSum { file: owned(file.as_str()), want: owned(sum.as_str()) },
            );
        },
        None => {},
    }
    assert(step_views(check@) =~= check_steps(*plan, dest_dir@));
    push_steps(&mut steps, check);
    push_steps(&mut steps, unpack(plan, dest_dir, file.as_str(), bin.as_str()));
    let mut message = cat2("installed tree has no executable at ", bin.as_str());
    message.append(" — recipe bin_path is wrong, nothing was registered");
    let mut finish: Vec<InstallStep> = Vec::new();
    finish.push(InstallStep::RequireFile { path: owned(bin.as_str()), message });
    finish.push(InstallStep::MakeExecutable(owned(bin.as_str())));
    finish.push(InstallStep::Say(cat2("installed ", bin.as_str())));
    assert(step_views(finish@) =~= finish_steps(*plan, dest_dir@));
    push_steps(&mut steps, finish);
    (steps, bin)
}

/// Where a sum is declared, the file is checked before anything is unpacked,
/// and no installation ends without making sure that the binary is there.
pub proof fn law_checked_before_unpacked(p: InstallPlan, dest: Seq<char>)
    ensures
        opt_text(p.sha256) is Some ==> install_steps(p, dest)[4] == StepView::CheckSum(
            plan_file(p, dest),
            opt_text(p.sha256)->0,
        ),
        install_steps(p, dest)[install_steps(p, dest).len() - 3] is RequireFile,
        install_steps(p, dest)[install_steps(p, dest).len() - 2] == StepView::MakeExecutable(
            plan_bin(p, dest),
        ),
{
}

} // verus!
