use vstd::prelude::*;
use vstd::string::StrSliceExecFns;

use crate::text::chars_of;

verus! {

/// Installs another release of the binary.
pub struct UpdateCommand {
    pub version: Option<String>,
}

/// What `str::to_lowercase` returns for these characters.
pub uninterp spec fn lower_of(s: Seq<char>) -> Seq<char>;

/// Relies on `str::to_lowercase`: its result depends on the characters
/// alone.
#[verifier::external_body]
fn lowercase(s: &str) -> (r: String)
    ensures
        r@ == lower_of(s@),
{
    s.to_lowercase()
}

/// The characters with the Unicode `White_Space` property, which
/// `char::is_whitespace` tests for.
pub open spec fn is_white_space(c: char) -> bool {
    ||| '\u{9}' <= c <= '\u{d}'
    ||| c == ' '
    ||| c == '\u{85}'
    ||| c == '\u{a0}'
    ||| c == '\u{1680}'
    ||| '\u{2000}' <= c <= '\u{200a}'
    ||| c == '\u{2028}'
    ||| c == '\u{2029}'
    ||| c == '\u{202f}'
    ||| c == '\u{205f}'
    ||| c == '\u{3000}'
}

/// `s` is `y` with white space around it, if any.
pub open spec fn is_yes(s: Seq<char>) -> bool {
    exists|i: int|
        0 <= i < s.len() && s[i] == 'y' && forall|j: int|
            0 <= j < s.len() && j != i ==> is_white_space(#[trigger] s[j])
}

fn white_space(c: char) -> (r: bool)
    ensures
        r == is_white_space(c),
{
    ('\u{9}' <= c && c <= '\u{d}') || c == ' ' || c == '\u{85}' || c == '\u{a0}' || c == '\u{1680}'
        || ('\u{2000}' <= c && c <= '\u{200a}') || c == '\u{2028}' || c == '\u{2029}' || c
        == '\u{202f}' || c == '\u{205f}' || c == '\u{3000}'
}

/// Whether an answer, already lower-cased, is a yes: `y` once trimmed.
pub fn approves_lowercase(answer: &str) -> (r: bool)
    ensures
        r == is_yes(answer@),
{
    let cs = chars_of(answer);
    let mut found: Option<usize> = None;
    let mut i: usize = 0;
    while i < cs.len()
        invariant
            cs@ == answer@,
            i <= cs@.len(),
            found is None ==> forall|j: int| 0 <= j < i ==> is_white_space(#[trigger] cs@[j]),
            found matches Some(k) ==> k < i && cs@[k as int] == 'y' && forall|j: int|
                0 <= j < i && j != k ==> is_white_space(#[trigger] cs@[j]),
        decreases cs@.len() - i,
    {
        let c = cs[i];
        if !white_space(c) {
            match found {
                Some(k) => {
                    proof {
                        assert forall|m: int|
                            !(0 <= m < cs@.len() && cs@[m] == 'y' && forall|j: int|
                                0 <= j < cs@.len() && j != m ==> is_white_space(
                                    #[trigger] cs@[j],
                                )) by {
                            if 0 <= m < cs@.len() && m != k {
                                assert(!is_white_space(cs@[k as int]));
                            } else if m == k {
                                assert(!is_white_space(cs@[i as int]));
                            }
                        }
                    }
                    return false;
                },
                None => {
                    if c != 'y' {
                        proof {
                            assert forall|m: int|
                                !(0 <= m < cs@.len() && cs@[m] == 'y' && forall|j: int|
                                    0 <= j < cs@.len() && j != m ==> is_white_space(
                                        #[trigger] cs@[j],
                                    )) by {
                                if 0 <= m < cs@.len() && m != i {
                                    assert(!is_white_space(cs@[i as int]));
                                }
                            }
                        }
                        return false;
                    }
                    found = Some(i);
                },
            }
        }
        i = i + 1;
    }
    match found {
        Some(k) => {
            assert(0 <= k < cs@.len() && cs@[k as int] == 'y');
            true
        },
        None => {
            proof {
                assert forall|m: int|
                    !(0 <= m < cs@.len() && cs@[m] == 'y' && forall|j: int|
                        0 <= j < cs@.len() && j != m ==> is_white_space(#[trigger] cs@[j])) by {
                    if 0 <= m < cs@.len() {
                        assert(is_white_space(cs@[m]));
                    }
                }
            }
            false
        },
    }
}

/// The release a tag names: the tag without its first character (`v0.6.0`
/// names `0.6.0`); `None` for an empty tag.
pub fn release_version(tag_name: &str) -> (r: Option<String>)
    ensures
        tag_name@.len() == 0 <==> r is None,
        r matches Some(v) ==> v@ == tag_name@.drop_first(),
{
    let n = tag_name.unicode_len();
    if n == 0 {
        return None;
    }
    let rest = tag_name.substring_char(1, n);
    assert(rest@ =~= tag_name@.drop_first());
    Some(<String as vstd::string::StringExecFns>::from_str(rest))
}

/// The platform part of a release file name for an operating system name
/// as `std::env::consts::OS` gives it; `None` for one without releases.
pub fn platform_name(os: &str) -> (r: Option<String>)
    ensures
        (os@ == "linux"@ || os@ == "macos"@) ==> (r matches Some(p) && p@ == os@),
        os@ == "windows"@ ==> (r matches Some(p) && p@ == "win64"@),
        !(os@ == "linux"@ || os@ == "macos"@ || os@ == "windows"@) ==> r is None,
{
    let cs = chars_of(os);
    proof {
        reveal_strlit("linux");
        reveal_strlit("macos");
        reveal_strlit("windows");
    }
    if crate::text::equals(&cs, "linux") || crate::text::equals(&cs, "macos") {
        Some(<String as vstd::string::StringExecFns>::from_str(os))
    } else if crate::text::equals(&cs, "windows") {
        Some(<String as vstd::string::StringExecFns>::from_str("win64"))
    } else {
        None
    }
}

/// The extension of an executable file on an operating system.
pub fn executable_extension(os: &str) -> (r: &'static str)
    ensures
        os@ == "windows"@ ==> r@ == ".exe"@,
        os@ != "windows"@ ==> r@ == ""@,
{
    let cs = chars_of(os);
    if crate::text::equals(&cs, "windows") {
        ".exe"
    } else {
        ""
    }
}

/// The name of the executable on an operating system.
pub fn binary_file_name(os: &str) -> (r: String)
    ensures
        os@ == "windows"@ ==> r@ == "Rojo"@ + ".exe"@,
        os@ != "windows"@ ==> r@ == "Rojo"@,
{
    let mut r = <String as vstd::string::StringExecFns>::from_str("Rojo");
    r.append(executable_extension(os));
    proof {
        if os@ != "windows"@ {
            reveal_strlit("");
            assert(r@ =~= "Rojo"@ + ""@);
        }
    }
    r
}

/// The file name of a release archive.
pub fn release_file_name(version: &str, platform: &str) -> (r: String)
    ensures
        r@ == "rojo-"@ + version@ + "-"@ + platform@ + ".zip"@,
{
    let mut r = <String as vstd::string::StringExecFns>::from_str("rojo-");
    r.append(version);
    r.append("-");
    r.append(platform);
    r.append(".zip");
    r
}

/// Where a release archive is downloaded from.
pub fn release_download_url(version: &str, file_name: &str) -> (r: String)
    ensures
        r@ == "https://github.com/rojo-rbx/rojo/releases/download/v"@ + version@ + "/"@
            + file_name@,
{
    let mut r = <String as vstd::string::StringExecFns>::from_str(
        "https://github.com/rojo-rbx/rojo/releases/download/v",
    );
    r.append(version);
    r.append("/");
    r.append(file_name);
    r
}

impl UpdateCommand {
    /// The version to install: the one asked for, else the latest release.
    pub fn version_to_install(self, latest: Option<String>) -> (r: Option<String>)
        ensures
            self.version is Some ==> r == self.version,
            self.version is None ==> r == latest,
    {
        match self.version {
            Some(v) => Some(v),
            None => latest,
        }
    }

    /// Whether the answer to the prompt is a yes: `y` in either case, with
    /// white space around it.
    pub fn confirms(answer: &str) -> (r: bool)
        ensures
            r == is_yes(lower_of(answer@)),
    {
        let lowered = lowercase(answer);
        approves_lowercase(lowered.as_str())
    }
}

} // verus!
