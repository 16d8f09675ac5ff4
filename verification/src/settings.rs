use vstd::prelude::*;
use vstd::string::*;

verus! {

/// Where the always-on-top badge stands on screen, in physical pixels.
#[derive(Clone, Copy, Debug, PartialEq, Eq, Structural)]
pub struct BadgePosition {
    pub x: i32,
    pub y: i32,
}

impl Default for BadgePosition {
    fn default() -> (p: Self)
        ensures
            p.x == 1530 && p.y == 18,
    {
        BadgePosition { x: 1530, y: 18 }
    }
}

/// The characters with the Unicode `White_Space` property, which `char::is_whitespace` accepts
/// and `str::trim` removes.
pub open spec fn is_white_space(c: char) -> bool {
    let u = c as int;
    ||| 0x09 <= u <= 0x0D
    ||| u == 0x20
    ||| u == 0x85
    ||| u == 0xA0
    ||| u == 0x1680
    ||| 0x2000 <= u <= 0x200A
    ||| u == 0x2028
    ||| u == 0x2029
    ||| u == 0x202F
    ||| u == 0x205F
    ||| u == 0x3000
}

/// A text that is empty once trimmed: nothing but white space.
pub open spec fn is_blank_spec(s: Seq<char>) -> bool {
    forall|i: int| 0 <= i < s.len() ==> is_white_space(#[trigger] s[i])
}

fn white_space(c: char) -> (r: bool)
    ensures
        r == is_white_space(c),
{
    let u = c as u32;
    (0x09 <= u && u <= 0x0D) || u == 0x20 || u == 0x85 || u == 0xA0 || u == 0x1680
        || (0x2000 <= u && u <= 0x200A) || u == 0x2028 || u == 0x2029 || u == 0x202F
        || u == 0x205F || u == 0x3000
}

/// Whether `s` is empty once trimmed.
pub fn is_blank(s: &str) -> (r: bool)
    ensures
        r == is_blank_spec(s@),
{
    let n = s.unicode_len();
    let mut i: usize = 0;
    while i < n
        invariant
            n == s@.len(),
            i <= n,
            forall|j: int| 0 <= j < i ==> is_white_space(#[trigger] s@[j]),
        decreases n - i,
    {
        if !white_space(s.get_char(i)) {
            return false;
        }
        i = i + 1;
    }
    true
}

/// The shortest refresh interval that the settings keep, in seconds.
pub const MIN_REFRESH_INTERVAL_SECS: u64 = 15;

/// The refresh interval as the settings keep it: at least fifteen seconds.
pub open spec fn normalized_interval(secs: u64) -> u64 {
    if secs < 15 { 15 } else { secs }
}

/// The refresh interval as the settings keep it, and as the monitor waits between refreshes.
pub fn normalized_refresh_interval(secs: u64) -> (r: u64)
    ensures
        r == normalized_interval(secs),
{
    if secs < MIN_REFRESH_INTERVAL_SECS {
        MIN_REFRESH_INTERVAL_SECS
    } else {
        secs
    }
}

/// An interval of at least fifteen seconds is kept as it is, and a shorter one is raised to
/// fifteen seconds: the clean-up never shortens an interval, nor lengthens one beyond the floor.
pub proof fn lemma_interval_floor(secs: u64)
    ensures
        secs >= 15 ==> normalized_interval(secs) == secs,
        secs < 15 ==> normalized_interval(secs) == 15,
        normalized_interval(secs) >= secs,
        normalized_interval(secs) >= 15,
{
}

/// The Codex home as the settings keep it: the default one where the configured one is blank.
pub open spec fn normalized_home(home: Seq<char>, default_home: Seq<char>) -> Seq<char> {
    if is_blank_spec(home) { default_home } else { home }
}

/// Puts loaded settings in order: a refresh interval of at least fifteen seconds, and the
/// default Codex home in place of a blank one.
pub fn normalize(refresh_interval_secs: &mut u64, codex_home: &mut String, default_home: String)
    ensures
        *final(refresh_interval_secs) == normalized_interval(*old(refresh_interval_secs)),
        final(codex_home)@ == normalized_home(old(codex_home)@, default_home@),
{
    *refresh_interval_secs = normalized_refresh_interval(*refresh_interval_secs);
    if is_blank(codex_home.as_str()) {
        *codex_home = default_home;
    }
}

/// Settings put in order stay as they are when put in order again, as long as the default
/// Codex home is not blank itself.
pub proof fn lemma_normalize_idempotent(secs: u64, home: Seq<char>, default_home: Seq<char>)
    requires
        !is_blank_spec(default_home),
    ensures
        normalized_interval(normalized_interval(secs)) == normalized_interval(secs),
        normalized_home(normalized_home(home, default_home), default_home)
            == normalized_home(home, default_home),
{
}

/// The first candidate path that exists.
pub open spec fn first_existing(candidates: Seq<(Seq<char>, bool)>) -> Option<Seq<char>>
    decreases candidates.len(),
{
    if candidates.len() == 0 {
        None
    } else if candidates[0].1 {
        Some(candidates[0].0)
    } else {
        first_existing(candidates.drop_first())
    }
}

/// The Codex executable to run: the configured one where it is not empty, else the first
/// candidate that exists, else `codex` from the search path. Each candidate comes with whether
/// it exists.
pub open spec fn executable_choice(configured: Option<Seq<char>>, candidates: Seq<(Seq<char>, bool)>) -> Seq<char> {
    match configured {
        Some(c) if c.len() > 0 => c,
        _ => match first_existing(candidates) {
            Some(path) => path,
            None => "codex"@,
        },
    }
}

/// With no path configured (or an empty one), the choice is the first candidate that exists,
/// whatever its place in the list, and `codex` from the search path where none exists; a
/// configured path that is not empty is chosen as it is.
pub proof fn lemma_choice_is_first_existing(
    configured: Option<Seq<char>>,
    candidates: Seq<(Seq<char>, bool)>,
    i: int,
)
    ensures
        configured is Some && configured->0.len() > 0
            ==> executable_choice(configured, candidates) == configured->0,
        (configured is None || configured->0.len() == 0)
            && 0 <= i < candidates.len()
            && candidates[i].1
            && (forall|j: int| 0 <= j < i ==> !(#[trigger] candidates[j]).1)
            ==> executable_choice(configured, candidates) == candidates[i].0,
        (configured is None || configured->0.len() == 0)
            && (forall|j: int| 0 <= j < candidates.len() ==> !(#[trigger] candidates[j]).1)
            ==> executable_choice(configured, candidates) == "codex"@,
{
    lemma_first_existing_at(candidates, i);
    lemma_first_existing_none(candidates);
}

proof fn lemma_first_existing_at(candidates: Seq<(Seq<char>, bool)>, i: int)
    ensures
        0 <= i < candidates.len()
            && candidates[i].1
            && (forall|j: int| 0 <= j < i ==> !(#[trigger] candidates[j]).1)
            ==> first_existing(candidates) == Some(candidates[i].0),
    decreases candidates.len(),
{
    if 0 < i < candidates.len() && candidates[i].1 && (forall|j: int| 0 <= j < i ==> !(#[trigger] candidates[j]).1) {
        let rest = candidates.drop_first();
        assert(!candidates[0].1);
        assert forall|j: int| 0 <= j < i - 1 implies !(#[trigger] rest[j]).1 by {
            assert(rest[j] == candidates[j + 1]);
        }
        assert(rest[i - 1] == candidates[i]);
        lemma_first_existing_at(rest, i - 1);
    }
}

proof fn lemma_first_existing_none(candidates: Seq<(Seq<char>, bool)>)
    ensures
        (forall|j: int| 0 <= j < candidates.len() ==> !(#[trigger] candidates[j]).1)
            ==> first_existing(candidates) is None,
    decreases candidates.len(),
{
    if candidates.len() > 0 && (forall|j: int| 0 <= j < candidates.len() ==> !(#[trigger] candidates[j]).1) {
        let rest = candidates.drop_first();
        assert(!candidates[0].1);
        assert forall|j: int| 0 <= j < rest.len() implies !(#[trigger] rest[j]).1 by {
            assert(rest[j] == candidates[j + 1]);
        }
        lemma_first_existing_none(rest);
    }
}

/// The Codex executable to run.
pub fn choose_codex_executable(configured: &Option<String>, candidates: &Vec<(String, bool)>) -> (exe: String)
    ensures
        exe@ == executable_choice(
            match configured { Some(c) => Some(c@), None => None },
            candidates@.map_values(|c: (String, bool)| (c.0@, c.1)),
        ),
{
    if let Some(path) = configured {
        if path.unicode_len() > 0 {
            return path.clone();
        }
    }
    let ghost all = candidates@.map_values(|c: (String, bool)| (c.0@, c.1));
    let n = candidates.len();
    let mut i: usize = 0;
    assert(all.skip(0) =~= all);
    while i < n
        invariant
            n == candidates@.len(),
            all == candidates@.map_values(|c: (String, bool)| (c.0@, c.1)),
            i <= n,
            configured matches Some(c) ==> c@.len() == 0,
            first_existing(all) == first_existing(all.skip(i as int)),
        decreases n - i,
    {
        assert(all.skip(i as int)[0] == all[i as int]);
        if candidates[i].1 {
            return candidates[i].0.clone();
        }
        assert(all.skip(i as int).drop_first() =~= all.skip(i + 1));
        i = i + 1;
    }
    String::from_str("codex")
}

/// The usual places of a Codex install on Windows, each as the components of a path: under
/// `%APPDATA%` where it is set, under `C:\Program Files\nodejs`, and under the home directory's
/// Herd nvm install where there is a home directory, in that order.
pub open spec fn candidate_paths(app_data: Option<Seq<char>>, home: Option<Seq<char>>) -> Seq<Seq<Seq<char>>> {
    let npm: Seq<Seq<Seq<char>>> = match app_data {
        Some(a) => seq![seq![a, "npm"@, "codex.cmd"@]],
        None => Seq::empty(),
    };
    let program_files: Seq<Seq<Seq<char>>> = seq![
        seq!["C:\\Program Files"@, "nodejs"@, "codex.cmd"@],
        seq!["C:\\Program Files"@, "nodejs"@, "codex"@],
    ];
    let nvm: Seq<Seq<Seq<char>>> = match home {
        Some(h) => {
            let modules = seq![h, ".config"@, "herd"@, "bin"@, "nvm"@, "v25.2.1"@, "node_modules"@];
            seq![
                modules + seq![".bin"@, "codex.cmd"@],
                modules + seq!["@openai"@, "codex"@, "bin"@, "codex.js"@],
            ]
        },
        None => Seq::empty(),
    };
    npm + program_files + nvm
}

/// The text of an optional string.
pub open spec fn optional_text(s: &Option<String>) -> Option<Seq<char>> {
    match s {
        Some(t) => Some(t@),
        None => None,
    }
}

/// The texts of a list of path components.
pub open spec fn parts_view(parts: Seq<String>) -> Seq<Seq<char>> {
    parts.map_values(|s: String| s@)
}

/// The texts of a list of paths, each given by its components.
pub open spec fn paths_view(paths: Seq<Vec<String>>) -> Seq<Seq<Seq<char>>> {
    paths.map_values(|p: Vec<String>| parts_view(p@))
}

fn push_part(parts: &mut Vec<String>, part: &str)
    ensures
        parts_view(final(parts)@) == parts_view(old(parts)@).push(part@),
{
    let ghost before = parts@;
    parts.push(String::from_str(part));
    assert(parts_view(parts@) =~= parts_view(before).push(part@));
}

fn path_from(first: &String, rest: Vec<&str>) -> (p: Vec<String>)
    ensures
        parts_view(p@) == seq![first@] + rest@.map_values(|s: &str| s@),
{
    let mut p: Vec<String> = Vec::new();
    p.push(first.clone());
    assert(parts_view(p@) =~= seq![first@]);
    let n = rest.len();
    let mut i: usize = 0;
    while i < n
        invariant
            n == rest@.len(),
            i <= n,
            parts_view(p@) == seq![first@] + rest@.take(i as int).map_values(|s: &str| s@),
        decreases n - i,
    {
        push_part(&mut p, rest[i]);
        assert(rest@.take(i + 1).map_values(|s: &str| s@)
            =~= rest@.take(i as int).map_values(|s: &str| s@).push(rest@[i as int]@));
        assert(seq![first@] + rest@.take(i + 1).map_values(|s: &str| s@)
            =~= (seq![first@] + rest@.take(i as int).map_values(|s: &str| s@)).push(rest@[i as int]@));
        i = i + 1;
    }
    assert(rest@.take(n as int) =~= rest@);
    p
}

fn push_path(paths: &mut Vec<Vec<String>>, p: Vec<String>)
    ensures
        paths_view(final(paths)@) == paths_view(old(paths)@).push(parts_view(p@)),
{
    let ghost before = paths@;
    let ghost added = parts_view(p@);
    paths.push(p);
    assert(paths_view(paths@) =~= paths_view(before).push(added));
}

/// The usual places of a Codex install on Windows, each as the components of a path, given
/// the environment's `APPDATA` and the home directory where they are known.
pub fn codex_executable_candidates(app_data: Option<String>, home: Option<String>) -> (c: Vec<Vec<String>>)
    ensures
        paths_view(c@) == candidate_paths(optional_text(&app_data), optional_text(&home)),
{
    let mut c: Vec<Vec<String>> = Vec::new();
    assert(paths_view(c@) =~= Seq::<Seq<Seq<char>>>::empty());
    if let Some(a) = &app_data {
        let rest = vec!["npm", "codex.cmd"];
        assert(rest@.map_values(|s: &str| s@) =~= seq!["npm"@, "codex.cmd"@]);
        let p = path_from(a, rest);
        assert(parts_view(p@) =~= seq![a@, "npm"@, "codex.cmd"@]);
        push_path(&mut c, p);
        assert(paths_view(c@) =~= seq![seq![a@, "npm"@, "codex.cmd"@]]);
    }
    let ghost npm = paths_view(c@);
    assert(npm =~= match optional_text(&app_data) {
        Some(a) => seq![seq![a, "npm"@, "codex.cmd"@]],
        None => Seq::<Seq<Seq<char>>>::empty(),
    });
    let program_files = String::from_str("C:\\Program Files");
    let rest = vec!["nodejs", "codex.cmd"];
    assert(rest@.map_values(|s: &str| s@) =~= seq!["nodejs"@, "codex.cmd"@]);
    let p = path_from(&program_files, rest);
    assert(parts_view(p@) =~= seq!["C:\\Program Files"@, "nodejs"@, "codex.cmd"@]);
    push_path(&mut c, p);
    let rest = vec!["nodejs", "codex"];
    assert(rest@.map_values(|s: &str| s@) =~= seq!["nodejs"@, "codex"@]);
    let p = path_from(&program_files, rest);
    assert(parts_view(p@) =~= seq!["C:\\Program Files"@, "nodejs"@, "codex"@]);
    push_path(&mut c, p);
    let ghost fixed = seq![
        seq!["C:\\Program Files"@, "nodejs"@, "codex.cmd"@],
        seq!["C:\\Program Files"@, "nodejs"@, "codex"@],
    ];
    assert(paths_view(c@) =~= npm + fixed);
    if let Some(h) = &home {
        let ghost modules = seq![h@, ".config"@, "herd"@, "bin"@, "nvm"@, "v25.2.1"@, "node_modules"@];
        let rest = vec![".config", "herd", "bin", "nvm", "v25.2.1", "node_modules", ".bin", "codex.cmd"];
        assert(seq![h@] + rest@.map_values(|s: &str| s@) =~= modules + seq![".bin"@, "codex.cmd"@]);
        push_path(&mut c, path_from(h, rest));
        let rest = vec![".config", "herd", "bin", "nvm", "v25.2.1", "node_modules", "@openai", "codex", "bin", "codex.js"];
        assert(seq![h@] + rest@.map_values(|s: &str| s@)
            =~= modules + seq!["@openai"@, "codex"@, "bin"@, "codex.js"@]);
        push_path(&mut c, path_from(h, rest));
        assert(paths_view(c@) =~= npm + fixed + seq![
            modules + seq![".bin"@, "codex.cmd"@],
            modules + seq!["@openai"@, "codex"@, "bin"@, "codex.js"@],
        ]);
    } else {
        assert(paths_view(c@) =~= npm + fixed + Seq::<Seq<Seq<char>>>::empty());
    }
    c
}

} // verus!
