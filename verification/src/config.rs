//! Every setting of `run`, defined once: the defaults, the files that layer
//! over them, and the two list settings that their variables split.

use vstd::prelude::*;

use crate::text::{join, join_texts, join_with, path_join, split, split_state, split_text, strings_view};

verus! {

/// Keys are the option names in kebab case: `model`, `pi-args`,
/// `system-prompt-file`, `tool-lines`, …
#[derive(Debug)]
pub struct Config {
    pub pi: String,
    pub model: Option<String>,
    pub thinking: Option<String>,
    pub pi_args: Vec<String>,
    pub session_root: Option<String>,
    pub system_prompt_file: Vec<String>,
    pub mcat: String,
    pub width: Option<usize>,
    pub retries: u32,
    pub tool_lines: usize,
    pub timeout: u64,
    pub trace: Option<String>,
}

impl Default for Config {
    fn default() -> (c: Self)
        ensures
            c.pi@ == "pi"@,
            c.model is None,
            c.thinking is None,
            c.pi_args@.len() == 0,
            c.session_root is None,
            c.system_prompt_file@.len() == 0,
            c.mcat@ == "mcat"@,
            c.width is None,
            c.retries == 2,
            c.tool_lines == 5,
            c.timeout == 600,
            c.trace is None,
    {
        Config {
            pi: "pi".to_owned(),
            model: None,
            thinking: None,
            pi_args: Vec::new(),
            session_root: None,
            system_prompt_file: Vec::new(),
            mcat: "mcat".to_owned(),
            width: None,
            retries: 2,
            tool_lines: 5,
            timeout: 600,
            trace: None,
        }
    }
}

/// Where a config file lives under a config directory.
pub open spec fn config_file_in(dir: Seq<char>) -> Seq<char> {
    path_join(dir, "pi-command-not-found/config.json"@)
}

pub open spec fn non_empty(d: Seq<char>) -> bool {
    d.len() > 0
}

/// The config files a user or a module can drop, lowest priority first:
/// one per non-empty entry of the colon-separated `config_dirs`, then the
/// one under `config_home`.
pub open spec fn config_files_of(config_dirs: Seq<char>, config_home: Option<Seq<char>>) -> Seq<Seq<char>> {
    let system = split_text(config_dirs, ':').filter(|d: Seq<char>| non_empty(d)).map_values(
        |d: Seq<char>| config_file_in(d),
    );
    match config_home {
        Some(home) => system.push(config_file_in(home)),
        None => system,
    }
}

pub open spec fn opt_str(o: Option<&str>) -> Option<Seq<char>> {
    match o {
        Some(s) => Some(s@),
        None => None,
    }
}

/// The config files under `$XDG_CONFIG_DIRS` and `$XDG_CONFIG_HOME`, the
/// system ones first.
pub fn config_files(config_dirs: &str, config_home: Option<&str>) -> (r: Vec<String>)
    ensures
        strings_view(r@) == config_files_of(config_dirs@, opt_str(config_home)),
{
    let dirs = split(config_dirs, ':');
    let ghost ds = strings_view(dirs@);
    let ghost pred = |d: Seq<char>| non_empty(d);
    let ghost f = |d: Seq<char>| config_file_in(d);
    let mut files: Vec<String> = Vec::new();
    for i in 0..dirs.len()
        invariant
            ds == strings_view(dirs@),
            ds == split_text(config_dirs@, ':'),
            pred == (|d: Seq<char>| non_empty(d)),
            f == (|d: Seq<char>| config_file_in(d)),
            strings_view(files@) == ds.take(i as int).filter(pred).map_values(f),
    {
        assert(ds[i as int] == dirs@[i as int]@);
        proof {
            crate::text::lemma_filter_map_step(ds, i as int, pred, f);
        }
        let ghost before = files@;
        let dir = dirs[i].as_str();
        if to_len(dir) > 0 {
            files.push(join(dir, "pi-command-not-found/config.json"));
            assert(strings_view(files@) =~= strings_view(before).push(config_file_in(ds[i as int])));
        }
        assert(strings_view(files@) =~= ds.take(i + 1).filter(pred).map_values(f));
    }
    assert(ds.take(dirs.len() as int) =~= ds);
    if let Some(home) = config_home {
        let ghost before = files@;
        files.push(join(home, "pi-command-not-found/config.json"));
        assert(strings_view(files@) =~= strings_view(before).push(config_file_in(home@)));
    }
    files
}

fn to_len(s: &str) -> (r: usize)
    ensures
        r == s@.len(),
{
    crate::text::to_chars(s).len()
}

/// The two settings that are lists, as their variables give them: one
/// argument per line, one prompt file per colon-separated entry.
#[derive(Debug)]
pub struct ListVars {
    pub pi_args: Option<Vec<String>>,
    pub system_prompt_file: Option<Vec<String>>,
}

pub open spec fn opt_split(value: Option<String>, sep: char) -> Option<Seq<Seq<char>>> {
    match value {
        Some(v) => Some(split_text(v@, sep)),
        None => None,
    }
}

pub open spec fn opt_strings(v: Option<Vec<String>>) -> Option<Seq<Seq<char>>> {
    match v {
        Some(v) => Some(strings_view(v@)),
        None => None,
    }
}

/// The list settings' variables, split the way the adapter reads them.
pub fn list_vars(pi_args: Option<String>, prompt_files: Option<String>) -> (r: ListVars)
    ensures
        opt_strings(r.pi_args) == opt_split(pi_args, '\n'),
        opt_strings(r.system_prompt_file) == opt_split(prompt_files, ':'),
{
    let pi_args = match pi_args {
        Some(value) => Some(split(value.as_str(), '\n')),
        None => None,
    };
    let system_prompt_file = match prompt_files {
        Some(value) => Some(split(value.as_str(), ':')),
        None => None,
    };
    ListVars { pi_args, system_prompt_file }
}

/// A file with whether it exists as a regular file.
pub open spec fn existing_paths(files: Seq<(String, bool)>) -> Seq<Seq<char>> {
    files.filter(|f: (String, bool)| f.1).map_values(|f: (String, bool)| f.0@)
}

pub open spec fn named_not_a_file(path: Seq<char>) -> Seq<char> {
    "the config file "@ + path + " named by PI_COMMAND_NOT_FOUND_CONFIG is not a file"@
}

pub open spec fn extra_not_a_file(path: Seq<char>) -> Seq<char> {
    "the config file "@ + path + " given to --config is not a file"@
}

/// The files to merge, in order: the one `PI_COMMAND_NOT_FOUND_CONFIG`
/// names alone if it is set, otherwise every search file that exists; then
/// the one given to `--config`, which wins over them.
pub open spec fn layers_of(
    named: Option<(String, bool)>,
    search: Seq<(String, bool)>,
    extra: Option<(String, bool)>,
) -> Result<Seq<Seq<char>>, Seq<char>> {
    match named {
        Some(n) if !n.1 => Err(named_not_a_file(n.0@)),
        _ => {
            let base = match named {
                Some(n) => seq![n.0@],
                None => existing_paths(search),
            };
            match extra {
                Some(e) => if e.1 {
                    Ok(base.push(e.0@))
                } else {
                    Err(extra_not_a_file(e.0@))
                },
                None => Ok(base),
            }
        },
    }
}

pub open spec fn layers_view(r: Result<Vec<String>, String>) -> Result<Seq<Seq<char>>, Seq<char>> {
    match r {
        Ok(v) => Ok(strings_view(v@)),
        Err(e) => Err(e@),
    }
}

fn message3(a: &str, b: &str, c: &str) -> (r: String)
    ensures
        r@ == a@ + b@ + c@,
{
    let mut m = a.to_owned();
    m.append(b);
    m.append(c);
    m
}

/// Chooses the config files to merge, given which of them are files.
pub fn config_layers(
    named: Option<(String, bool)>,
    search: &Vec<(String, bool)>,
    extra: Option<(String, bool)>,
) -> (r: Result<Vec<String>, String>)
    ensures
        layers_view(r) == layers_of(named, search@, extra),
{
    let mut files: Vec<String> = Vec::new();
    match &named {
        Some((path, is_file)) => {
            if !*is_file {
                return Err(
                    message3(
                        "the config file ",
                        path.as_str(),
                        " named by PI_COMMAND_NOT_FOUND_CONFIG is not a file",
                    ),
                );
            }
            files.push(path.clone());
            assert(strings_view(files@) =~= seq![path@]);
        },
        None => {
            let ghost pred = |f: (String, bool)| f.1;
            let ghost g = |f: (String, bool)| f.0@;
            for i in 0..search.len()
                invariant
                    pred == (|f: (String, bool)| f.1),
                    g == (|f: (String, bool)| f.0@),
                    strings_view(files@) == search@.take(i as int).filter(pred).map_values(g),
            {
                proof {
                    crate::text::lemma_filter_map_step(search@, i as int, pred, g);
                }
                let ghost before = files@;
                if search[i].1 {
                    files.push(search[i].0.clone());
                    assert(strings_view(files@) =~= strings_view(before).push(search@[i as int].0@));
                }
                assert(strings_view(files@) =~= search@.take(i + 1).filter(pred).map_values(g));
            }
            assert(search@.take(search.len() as int) =~= search@);
        },
    }
    match &extra {
        Some((path, is_file)) => {
            if !*is_file {
                return Err(message3("the config file ", path.as_str(), " given to --config is not a file"));
            }
            let ghost before = files@;
            files.push(path.clone());
            assert(strings_view(files@) =~= strings_view(before).push(path@));
        },
        None => {},
    }
    Ok(files)
}

/// What a failed read of the configuration is reported with.
pub open spec fn configuration_context(files: Seq<Seq<char>>) -> Seq<char> {
    if files.len() == 0 {
        "cannot read the configuration"@
    } else {
        "cannot read the configuration from "@ + join_with(files, ", "@)
    }
}

pub fn configuration_error(files: &[String]) -> (r: String)
    ensures
        r@ == configuration_context(strings_view(files@)),
{
    if files.len() == 0 {
        "cannot read the configuration".to_owned()
    } else {
        let mut m = "cannot read the configuration from ".to_owned();
        let joined = join_texts(files, ", ");
        m.append(joined.as_str());
        m
    }
}

pub open spec fn names_a_missing_file(named: Option<(String, bool)>) -> bool {
    match named {
        Some(n) => !n.1,
        None => false,
    }
}

/// How the config files layer: the file `PI_COMMAND_NOT_FOUND_CONFIG`
/// names only stands in for the search files, and the one given to
/// `--config` is merged last, over whatever came before, so it wins. A named
/// or given path that is not a file is an error, the named one first.
pub proof fn lemma_config_layers(
    named: Option<(String, bool)>,
    search: Seq<(String, bool)>,
    extra: Option<(String, bool)>,
)
    ensures
        named matches Some(n) ==> (n.1 ==> layers_of(named, search, extra) == layers_of(None, seq![n], extra)),
        named matches Some(n) ==> (!n.1 ==> layers_of(named, search, extra) == Err::<Seq<Seq<char>>, Seq<char>>(
            named_not_a_file(n.0@),
        )),
        extra matches Some(e) ==> (!e.1 && !names_a_missing_file(named) ==> layers_of(named, search, extra)
            == Err::<Seq<Seq<char>>, Seq<char>>(extra_not_a_file(e.0@))),
        extra matches Some(e) ==> (e.1 && layers_of(named, search, extra) is Ok ==> ({
            let files = layers_of(named, search, extra)->Ok_0;
            files.len() >= 1 && files.last() == e.0@ && files.drop_last() == layers_of(named, search, None)->Ok_0
        })),
        named is None && extra is None ==> layers_of(named, search, extra) == Ok::<Seq<Seq<char>>, Seq<char>>(
            existing_paths(search),
        ),
        forall|i: int|
            0 <= i < search.len() && (#[trigger] search[i]).1 && named is None ==> existing_paths(search).contains(
                search[i].0@,
            ),
{
    broadcast use vstd::seq_lib::group_filter_ensures;

    if let Some(n) = named {
        if n.1 {
            let one = seq![n];
            reveal(Seq::filter);
            assert(one.drop_last() =~= Seq::<(String, bool)>::empty());
            assert(one.filter(|f: (String, bool)| f.1) =~= one);
            assert(existing_paths(one) =~= seq![n.0@]);
        }
    }
    if named is None {
        assert forall|i: int| 0 <= i < search.len() && (#[trigger] search[i]).1 implies existing_paths(
            search,
        ).contains(search[i].0@) by {
            let kept = search.filter(|f: (String, bool)| f.1);
            assert(kept.contains(search[i]));
            let k = choose|k: int| 0 <= k < kept.len() && kept[k] == search[i];
            assert(existing_paths(search)[k] == search[i].0@);
        }
    }
    if let Some(e) = extra {
        if e.1 && layers_of(named, search, extra) is Ok {
            let files = layers_of(named, search, extra)->Ok_0;
            assert(files.drop_last() =~= layers_of(named, search, None)->Ok_0);
        }
    }
}

/// The user's config file comes last, over the system ones; a single
/// search directory gives its one file; and a file lies under its directory
/// as `pi-command-not-found/config.json`.
pub proof fn lemma_config_files(dir: Seq<char>, config_dirs: Seq<char>, home: Seq<char>)
    requires
        dir.len() > 0,
        !dir.contains(':'),
    ensures
        config_files_of(config_dirs, Some(home)).last() == config_file_in(home),
        config_files_of(config_dirs, Some(home)).drop_last() == config_files_of(config_dirs, None),
        config_files_of(dir, None) == seq![config_file_in(dir)],
        dir.last() != '/' ==> config_file_in(dir) == dir + "/pi-command-not-found/config.json"@,
{
    assert(config_files_of(config_dirs, Some(home)).drop_last() =~= config_files_of(config_dirs, None));
    lemma_split_one(dir);
    let one = seq![dir];
    reveal(Seq::filter);
    assert(one.drop_last() =~= Seq::<Seq<char>>::empty());
    assert(one.filter(|d: Seq<char>| non_empty(d)) =~= one);
    assert(one.filter(|d: Seq<char>| non_empty(d)).map_values(|d: Seq<char>| config_file_in(d)) =~= seq![
        config_file_in(dir),
    ]);
    reveal_strlit("pi-command-not-found/config.json");
    reveal_strlit("/pi-command-not-found/config.json");
    if dir.last() != '/' {
        assert(config_file_in(dir) =~= dir + "/pi-command-not-found/config.json"@);
    }
}

proof fn lemma_split_one(d: Seq<char>)
    requires
        !d.contains(':'),
    ensures
        split_text(d, ':') == seq![d],
{
    lemma_split_state_one(d);
    assert(seq![d] =~= Seq::<Seq<char>>::empty().push(d));
}

proof fn lemma_split_state_one(d: Seq<char>)
    requires
        !d.contains(':'),
    ensures
        split_state(d, ':') == (Seq::<Seq<char>>::empty(), d),
    decreases d.len(),
{
    if d.len() > 0 {
        let init = d.drop_last();
        assert(!init.contains(':')) by {
            if init.contains(':') {
                let i = choose|i: int| 0 <= i < init.len() && init[i] == ':';
                assert(d[i] == ':');
            }
        }
        lemma_split_state_one(init);
        assert(d.last() != ':') by {
            if d.last() == ':' {
                assert(d[d.len() - 1] == ':');
            }
        }
        assert(init.push(d.last()) =~= d);
    } else {
        assert(d =~= Seq::<char>::empty());
    }
}

} // verus!
