//! The configuration the engine runs under: the base directory, the four
//! pattern sets classifying paths, and the server bindings. Pattern sets are
//! compiled here; reading and writing the configuration file is the caller's
//! affair.
use vstd::prelude::*;

use crate::error::Error;
use crate::strs::opt_view;
use crate::walk::classify_flags;
use crate::walk::classify_v;
use crate::walk::patterns_compile;
use crate::walk::patterns_of;
use crate::walk::regex_set_matches;
use crate::walk::regex_set_new;
use crate::walk::set_match;
use crate::walk::PathClass;
use regex::RegexSet;
use vstd::string::StringExecFns;

verus! {

/// The configuration as written in the configuration file.
#[derive(Debug)]
pub struct ConfigGeneral {
    pub base_dir: String,
    pub media_include_patterns: Vec<String>,
    pub media_exclude_patterns: Vec<String>,
    pub cover_include_patterns: Vec<String>,
    pub cover_exclude_patterns: Vec<String>,
    pub bindings: Vec<String>,
}

/// The patterns media files match by default.
pub fn default_media_include_patterns() -> (r: Vec<String>)
    ensures
        r@.len() == 3,
        r@[0]@ == ".*\\.flac$"@,
        r@[1]@ == ".*\\.mp3$"@,
        r@[2]@ == ".*\\.ogg$"@,
{
    let mut r: Vec<String> = Vec::new();
    r.push(String::from_str(".*\\.flac$"));
    r.push(String::from_str(".*\\.mp3$"));
    r.push(String::from_str(".*\\.ogg$"));
    r
}

/// The patterns cover files match by default.
pub fn default_cover_include_patterns() -> (r: Vec<String>)
    ensures
        r@.len() == 2,
        r@[0]@ == ".*\\.jpg$"@,
        r@[1]@ == ".*\\.png$"@,
{
    let mut r: Vec<String> = Vec::new();
    r.push(String::from_str(".*\\.jpg$"));
    r.push(String::from_str(".*\\.png$"));
    r
}

/// The address the server binds by default.
pub fn default_bindings() -> (r: Vec<String>)
    ensures
        r@.len() == 1,
        r@[0]@ == "127.0.0.1:8980"@,
{
    let mut r: Vec<String> = Vec::new();
    r.push(String::from_str("127.0.0.1:8980"));
    r
}

/// Relies on `dirs::audio_dir`: the platform's audio directory, when it
/// knows one; the answer depends on the environment, so nothing is stated.
#[verifier::external_body]
fn audio_dir_string() -> (r: Option<String>) {
    dirs::audio_dir().map(|p| p.to_string_lossy().to_string())
}

/// Relies on `dirs::home_dir`: the user's home directory, when the platform
/// knows one; the answer depends on the environment, so nothing is stated.
#[verifier::external_body]
fn home_dir_string() -> (r: Option<String>) {
    dirs::home_dir().map(|p| p.to_string_lossy().to_string())
}

/// The base directory, from what the platform offers: the audio directory,
/// else a music directory under the home directory, else a literal fallback.
pub open spec fn base_dir_from_v(audio: Option<Seq<char>>, home: Option<Seq<char>>) -> Seq<char> {
    match audio {
        Some(d) => d,
        None => match home {
            Some(h) => h + "/Music"@,
            None => "~/Music/"@,
        },
    }
}

/// Picks the base directory from the platform's answers.
pub fn base_dir_from(audio: Option<String>, home: Option<String>) -> (r: String)
    ensures
        r@ == base_dir_from_v(opt_view(audio), opt_view(home)),
{
    match audio {
        Some(d) => d,
        None => match home {
            Some(h) => h.concat("/Music"),
            None => String::from_str("~/Music/"),
        },
    }
}

/// The base directory used when the configuration names none.
pub fn default_base_dir() -> (r: String) {
    base_dir_from(audio_dir_string(), home_dir_string())
}

impl Default for ConfigGeneral {
    /// The configuration used when the file is missing or silent.
    fn default() -> (r: ConfigGeneral)
        ensures
            r.media_include_patterns@.len() == 3,
            r.media_exclude_patterns@.len() == 0,
            r.cover_include_patterns@.len() == 2,
            r.cover_exclude_patterns@.len() == 0,
            r.bindings@.len() == 1,
    {
        ConfigGeneral {
            base_dir: default_base_dir(),
            media_include_patterns: default_media_include_patterns(),
            media_exclude_patterns: Vec::new(),
            cover_include_patterns: default_cover_include_patterns(),
            cover_exclude_patterns: Vec::new(),
            bindings: default_bindings(),
        }
    }
}

/// The configuration with its pattern sets compiled.
pub struct Config {
    pub base_dir: String,
    pub media_include_patterns: RegexSet,
    pub media_exclude_patterns: RegexSet,
    pub cover_include_patterns: RegexSet,
    pub cover_exclude_patterns: RegexSet,
    pub bindings: Vec<String>,
}

/// The views of a configured pattern list.
pub open spec fn pattern_views(patterns: Seq<String>) -> Seq<Seq<char>> {
    patterns.map_values(|p: String| p@)
}

impl Config {
    /// Compiles the configured pattern sets: it succeeds exactly when all
    /// four pattern lists compile, and the compiled sets then hold exactly
    /// the configured patterns.
    pub fn from_general(g: ConfigGeneral) -> (r: Result<Config, Error>)
        ensures
            r is Ok <==> patterns_compile(pattern_views(g.media_include_patterns@))
                && patterns_compile(pattern_views(g.media_exclude_patterns@))
                && patterns_compile(pattern_views(g.cover_include_patterns@))
                && patterns_compile(pattern_views(g.cover_exclude_patterns@)),
            r matches Ok(c) ==> {
                &&& c.base_dir@ == g.base_dir@
                &&& c.bindings == g.bindings
                &&& patterns_of(c.media_include_patterns) == pattern_views(
                    g.media_include_patterns@,
                )
                &&& patterns_of(c.media_exclude_patterns) == pattern_views(
                    g.media_exclude_patterns@,
                )
                &&& patterns_of(c.cover_include_patterns) == pattern_views(
                    g.cover_include_patterns@,
                )
                &&& patterns_of(c.cover_exclude_patterns) == pattern_views(
                    g.cover_exclude_patterns@,
                )
            },
            r matches Err(e) ==> e matches Error::ConfigLoadError { .. },
    {
        let media_include_patterns = match regex_set_new(&g.media_include_patterns) {
            Ok(s) => s,
            Err(e) => {
                return Err(e);
            },
        };
        let media_exclude_patterns = match regex_set_new(&g.media_exclude_patterns) {
            Ok(s) => s,
            Err(e) => {
                return Err(e);
            },
        };
        let cover_include_patterns = match regex_set_new(&g.cover_include_patterns) {
            Ok(s) => s,
            Err(e) => {
                return Err(e);
            },
        };
        let cover_exclude_patterns = match regex_set_new(&g.cover_exclude_patterns) {
            Ok(s) => s,
            Err(e) => {
                return Err(e);
            },
        };
        Ok(
            Config {
                base_dir: g.base_dir,
                media_include_patterns,
                media_exclude_patterns,
                cover_include_patterns,
                cover_exclude_patterns,
                bindings: g.bindings,
            },
        )
    }

    /// Classifies one path against the configured pattern sets: exactly
    /// `classify_v` over the four sets' match answers — a media match not
    /// excluded is media, else a cover match not excluded is a cover, else
    /// the path is skipped. Which paths match is the patterns' affair.
    pub fn classify(&self, path: &str) -> (r: PathClass)
        ensures
            r == classify_v(
                set_match(patterns_of(self.media_include_patterns), path@),
                set_match(patterns_of(self.media_exclude_patterns), path@),
                set_match(patterns_of(self.cover_include_patterns), path@),
                set_match(patterns_of(self.cover_exclude_patterns), path@),
            ),
    {
        let mi = regex_set_matches(&self.media_include_patterns, path);
        let me = regex_set_matches(&self.media_exclude_patterns, path);
        let ci = regex_set_matches(&self.cover_include_patterns, path);
        let ce = regex_set_matches(&self.cover_exclude_patterns, path);
        classify_flags(mi, me, ci, ce)
    }
}

} // verus!
