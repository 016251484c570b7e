//! Output-path interpretation: a chain of plugins that rewrite a path in turn
//! (a `@name` prefix remapped, a relative path put under a root), after which
//! repeated separators and `.` components are dropped.

use crate::dictionary::Dictionary;
use crate::text::BytesToStringExt;
use vstd::prelude::*;
use vstd::string::StrSliceExecFns;
use vstd::utf8::{decode_utf8, encode_utf8, valid_utf8};

verus! {

/// The path separator.
pub const SEPARATOR: u8 = 0x2f;

/// Why a path cannot be interpreted.
#[derive(Debug, Clone, Copy, PartialEq, Eq, Structural)]
pub enum PathError {
    /// The path does not have the form that remapping reads.
    NotRemappable,
    /// The path names a prefix that the remapping does not define.
    UndefinedRemap,
    /// The rewritten path is not well-formed UTF-8.
    InvalidText,
}

/// Whether `c` belongs to the Unicode word class `\w`.
pub uninterp spec fn word_char(c: char) -> bool;

/// Relies on `regex_syntax::is_word_character`: whether a character is in the
/// Unicode `\w` class; the crate's default `unicode-perl` feature is on, so
/// the call does not panic.
#[verifier::external_body]
fn is_word_char(c: char) -> (r: bool)
    ensures
        r == word_char(c),
{
    regex_syntax::is_word_character(c)
}

/// The characters of `s`.
fn chars_of(s: &str) -> (r: Vec<char>)
    ensures
        r@ == s@,
{
    let mut r: Vec<char> = Vec::new();
    for c in it: s.chars()
        invariant
            it.seq() == s@,
            r@ == it.seq().take(it.index() as int),
    {
        r.push(c);
    }
    r
}

/// The text whose UTF-8 bytes are `bytes`.
pub open spec fn text_of(bytes: Seq<u8>) -> Result<Seq<char>, PathError> {
    if valid_utf8(bytes) {
        Ok(decode_utf8(bytes))
    } else {
        Err(PathError::InvalidText)
    }
}

fn text_from_bytes(bytes: Vec<u8>) -> (r: Result<String, PathError>)
    ensures
        match r {
            Ok(s) => text_of(bytes@) == Ok::<Seq<char>, PathError>(s@),
            Err(e) => text_of(bytes@) == Err::<Seq<char>, PathError>(e),
        },
{
    match bytes.to_str() {
        Ok(s) => Ok(s),
        Err(_) => Err(PathError::InvalidText),
    }
}

/// Appends the bytes of `src` to `dst`.
fn append_bytes(dst: &mut Vec<u8>, src: &[u8])
    ensures
        final(dst)@ == old(dst)@ + src@,
{
    let mut k: usize = 0;
    while k < src.len()
        invariant
            dst@ == old(dst)@ + src@.take(k as int),
            k <= src@.len(),
        decreases src@.len() - k,
    {
        dst.push(src[k]);
        k = k + 1;
        proof {
            assert(dst@ =~= old(dst)@ + src@.take(k as int));
        }
    }
    proof {
        assert(src@.take(src@.len() as int) =~= src@);
    }
}

/// A character that may follow the remap prefix: `\w`, `/`, `.`, `_`, ` `
/// or `-`.
pub open spec fn path_char(c: char) -> bool {
    word_char(c) || c == '/' || c == '.' || c == '_' || c == ' ' || c == '-'
}

pub open spec fn all_path_chars(s: Seq<char>) -> bool {
    forall|i: int| 0 <= i < s.len() ==> path_char(#[trigger] s[i])
}

/// The end of the run of word characters that starts at `i`.
pub open spec fn word_run_end(s: Seq<char>, i: nat) -> nat
    decreases s.len() - i,
{
    if i >= s.len() {
        s.len()
    } else if word_char(s[i as int]) {
        word_run_end(s, i + 1)
    } else {
        i
    }
}

/// A remappable path split into its optional `@name` prefix name and the
/// rest: `@` and a longest run of word characters, then only path
/// characters; or only path characters. `None` for any other path.
pub open spec fn remap_split(s: Seq<char>) -> Option<(Option<Seq<char>>, Seq<char>)> {
    if s.len() > 0 && s[0] == '@' {
        let e = word_run_end(s, 1);
        let rest = s.subrange(e as int, s.len() as int);
        if e > 1 && all_path_chars(rest) {
            Some((Some(s.subrange(1, e as int)), rest))
        } else {
            None
        }
    } else if all_path_chars(s) {
        Some((None, s))
    } else {
        None
    }
}

/// What remapping makes of path `s` with prefix table `map`: the prefix name
/// is replaced by the bytes that `map` gives it.
pub open spec fn remap_model(map: Map<Seq<u8>, Seq<u8>>, s: Seq<char>) -> Result<
    Seq<char>,
    PathError,
> {
    match remap_split(s) {
        None => Err(PathError::NotRemappable),
        Some((None, rest)) => text_of(encode_utf8(rest)),
        Some((Some(name), rest)) => if map.contains_key(encode_utf8(name)) {
            text_of(map[encode_utf8(name)] + encode_utf8(rest))
        } else {
            Err(PathError::UndefinedRemap)
        },
    }
}

/// What putting `s` under `root` makes of it: an absolute path is kept, a
/// relative one follows the root bytes.
pub open spec fn reroot_model(root: Seq<u8>, s: Seq<char>) -> Result<Seq<char>, PathError> {
    if s.len() > 0 && s[0] == '/' {
        Ok(s)
    } else {
        text_of(root + encode_utf8(s))
    }
}

/// The pieces of `s` between separators, empty ones included.
pub open spec fn segments(s: Seq<char>) -> Seq<Seq<char>>
    decreases s.len(),
{
    if s.len() == 0 {
        seq![seq![]]
    } else {
        let r = segments(s.drop_last());
        if s.last() == '/' {
            r.push(seq![])
        } else {
            r.update(r.len() - 1, r.last().push(s.last()))
        }
    }
}

proof fn lemma_segments_len(s: Seq<char>)
    ensures
        segments(s).len() >= 1,
    decreases s.len(),
{
    if s.len() > 0 {
        lemma_segments_len(s.drop_last());
    }
}

/// A piece that stays as a component: neither empty nor `.`.
pub open spec fn kept_segment(p: Seq<char>) -> bool {
    p.len() > 0 && p != seq!['.']
}

pub open spec fn kept(segs: Seq<Seq<char>>) -> Seq<Seq<char>>
    decreases segs.len(),
{
    if segs.len() == 0 {
        seq![]
    } else if kept_segment(segs.last()) {
        kept(segs.drop_last()).push(segs.last())
    } else {
        kept(segs.drop_last())
    }
}

/// The component that leads the path: the root of an absolute path (shown
/// empty), or `.` where a relative path starts with it.
pub open spec fn leading(s: Seq<char>) -> Seq<Seq<char>> {
    if s.len() > 0 && s[0] == '/' {
        seq![seq![]]
    } else if s.len() > 0 && s[0] == '.' && (s.len() == 1 || s[1] == '/') {
        seq![seq!['.']]
    } else {
        seq![]
    }
}

/// `parts` joined by separators.
pub open spec fn join_slash(parts: Seq<Seq<char>>) -> Seq<char>
    decreases parts.len(),
{
    if parts.len() == 0 {
        seq![]
    } else if parts.len() == 1 {
        parts[0]
    } else {
        join_slash(parts.drop_last()) + seq!['/'] + parts.last()
    }
}

/// `s` with repeated and trailing separators and inner `.` components gone.
pub open spec fn dedup_model(s: Seq<char>) -> Seq<char> {
    join_slash(leading(s) + kept(segments(s)))
}

/// Appends `part` to `out` as the next component of `parts`.
fn push_component(out: &mut String, started: bool, part: &str, Ghost(parts): Ghost<Seq<Seq<char>>>)
    requires
        old(out)@ == join_slash(parts),
        started == (parts.len() > 0),
    ensures
        final(out)@ == join_slash(parts.push(part@)),
{
    if started {
        let sep = "/";
        proof {
            reveal_strlit("/");
        }
        out.append(sep);
    }
    out.append(part);
    proof {
        assert(parts.push(part@).drop_last() =~= parts);
        if !started {
            assert(old(out)@ =~= seq![]);
            assert(final(out)@ =~= part@);
        }
    }
}

/// `path` with repeated and trailing separators and inner `.` components
/// dropped, its components joined by `/`.
pub fn dedup_path_sep(path: &str) -> (r: String)
    ensures
        r@ == dedup_model(path@),
{
    let cs = chars_of(path);
    let n = cs.len();
    let mut out = String::new();
    let mut started = false;
    let ghost lead = leading(path@);
    if n > 0 && cs[0] == '/' {
        started = true;
        proof {
            assert(out@ =~= join_slash(lead));
        }
    } else if n > 0 && cs[0] == '.' && (n == 1 || cs[1] == '/') {
        let dot = ".";
        proof {
            reveal_strlit(".");
            assert(dot@ =~= seq!['.']);
        }
        out.append(dot);
        started = true;
        proof {
            assert(out@ =~= join_slash(lead));
        }
    } else {
        proof {
            assert(out@ =~= join_slash(lead));
        }
    }
    let mut start: usize = 0;
    let mut i: usize = 0;
    let ghost mut done: Seq<Seq<char>> = seq![];
    proof {
        assert(path@.take(0) =~= seq![]);
        assert(cs@.subrange(0, 0) =~= seq![]);
        assert(done.push(seq![]) =~= seq![seq![]]);
        assert(lead + kept(done) =~= lead);
    }
    while i < n
        invariant
            n == cs@.len(),
            cs@ == path@,
            lead == leading(path@),
            start <= i <= n,
            segments(path@.take(i as int)) == done.push(path@.subrange(start as int, i as int)),
            out@ == join_slash(lead + kept(done)),
            started == ((lead + kept(done)).len() > 0),
        decreases n - i,
    {
        let c = cs[i];
        proof {
            let t = path@.take(i + 1);
            assert(t.drop_last() =~= path@.take(i as int));
            assert(t.last() == c);
            lemma_segments_len(path@.take(i as int));
        }
        if c == '/' {
            let ghost seg = path@.subrange(start as int, i as int);
            if i > start && !(i == start + 1 && cs[start] == '.') {
                let part = path.substring_char(start, i);
                push_component(&mut out, started, part, Ghost(lead + kept(done)));
                started = true;
                proof {
                    assert(seg.len() > 0);
                    if seg == seq!['.'] {
                        assert(seg[0] == cs@[start as int]);
                    }
                    assert(done.push(seg).drop_last() =~= done);
                    assert(lead + kept(done.push(seg)) =~= (lead + kept(done)).push(seg));
                }
            } else {
                proof {
                    assert(done.push(seg).drop_last() =~= done);
                    if seg.len() > 0 {
                        assert(seg =~= seq!['.']);
                    }
                }
            }
            proof {
                done = done.push(seg);
            }
            start = i + 1;
            i = i + 1;
            proof {
                assert(path@.subrange(start as int, i as int) =~= seq![]);
                assert(segments(path@.take(i as int)) =~= done.push(seq![]));
            }
        } else {
            i = i + 1;
            proof {
                assert(path@.subrange(start as int, i as int) =~= path@.subrange(
                    start as int,
                    i - 1,
                ).push(c));
                assert(segments(path@.take(i as int)) =~= done.push(
                    path@.subrange(start as int, i as int),
                ));
            }
        }
    }
    let ghost seg = path@.subrange(start as int, n as int);
    proof {
        assert(path@.take(n as int) =~= path@);
        assert(done.push(seg).drop_last() =~= done);
    }
    if n > start && !(n == start + 1 && cs[start] == '.') {
        let part = path.substring_char(start, n);
        push_component(&mut out, started, part, Ghost(lead + kept(done)));
        proof {
            assert(seg.len() > 0);
            if seg == seq!['.'] {
                assert(seg[0] == cs@[start as int]);
            }
            assert(lead + kept(done.push(seg)) =~= (lead + kept(done)).push(seg));
        }
    } else {
        proof {
            if seg.len() > 0 {
                assert(seg =~= seq!['.']);
            }
        }
    }
    out
}

/// The model of a path result.
pub open spec fn path_result_model(r: Result<String, PathError>) -> Result<Seq<char>, PathError> {
    match r {
        Ok(s) => Ok(s@),
        Err(e) => Err(e),
    }
}

/// A rewriting step over paths.
pub trait PathPluggable {
    /// What this step makes of path `input`.
    spec fn output_model(&self, input: Seq<char>) -> Result<Seq<char>, PathError>;

    fn output(&self, input: &str) -> (r: Result<String, PathError>)
        ensures
            path_result_model(r) == self.output_model(input@),
    ;
}

/// The step that keeps a path as it is.
#[derive(Debug, Clone, Copy)]
pub struct ForwardPath;

impl Default for ForwardPath {
    fn default() -> (r: Self) {
        ForwardPath
    }
}

impl PathPluggable for ForwardPath {
    open spec fn output_model(&self, input: Seq<char>) -> Result<Seq<char>, PathError> {
        Ok(input)
    }

    fn output(&self, input: &str) -> (r: Result<String, PathError>) {
        Ok(String::from_str(input))
    }
}

/// The step that replaces a leading `@name` by the bytes that its table
/// gives `name`.
#[derive(Debug, Clone)]
pub struct PathRemap {
    map: Dictionary<Vec<u8>, Vec<u8>>,
}

impl PathRemap {
    pub closed spec fn table(&self) -> Map<Seq<u8>, Seq<u8>> {
        self.map@
    }

    /// The remapping by the name/prefix pairs of `pairs`; where a name comes
    /// twice, the later pair decides.
    pub fn new(pairs: Vec<(Vec<u8>, Vec<u8>)>) -> (r: Self)
        ensures
            r.table() == crate::dictionary::entries_map(pairs@),
    {
        let mut map: Dictionary<Vec<u8>, Vec<u8>> = Dictionary::new();
        let ghost all = pairs@;
        for kv in it: pairs
            invariant
                it.seq() == all,
                map@ == crate::dictionary::entries_map(all.take(it.index() as int)),
        {
            let ghost i = it.index();
            let (k, v) = kv;
            map.insert(k, v);
            proof {
                assert(all.take(i + 1).drop_last() =~= all.take(i as int));
            }
        }
        proof {
            assert(all.take(all.len() as int) =~= all);
        }
        PathRemap { map }
    }
}

impl Default for PathRemap {
    fn default() -> (r: Self)
        ensures
            r.table() == Map::<Seq<u8>, Seq<u8>>::empty(),
    {
        PathRemap { map: Dictionary::new() }
    }
}

impl PathPluggable for PathRemap {
    open spec fn output_model(&self, input: Seq<char>) -> Result<Seq<char>, PathError> {
        remap_model(self.table(), input)
    }

    fn output(&self, input: &str) -> (r: Result<String, PathError>) {
        let cs = chars_of(input);
        let n = cs.len();
        let ghost s = input@;
        let mut rest_start: usize = 0;
        let has_name = n > 0 && cs[0] == '@';
        if has_name {
            let mut e: usize = 1;
            while e < n && is_word_char(cs[e])
                invariant
                    cs@ == s,
                    n == s.len(),
                    1 <= e <= n,
                    word_run_end(s, 1) == word_run_end(s, e as nat),
                decreases n - e,
            {
                e = e + 1;
            }
            proof {
                assert(word_run_end(s, e as nat) == e);
            }
            if e == 1 {
                return Err(PathError::NotRemappable);
            }
            rest_start = e;
        }
        let mut j: usize = rest_start;
        while j < n
            invariant
                cs@ == s,
                n == s.len(),
                rest_start <= j <= n,
                s == input@,
                forall|i: int| rest_start <= i < j ==> path_char(#[trigger] s[i]),
                has_name == (s.len() > 0 && s[0] == '@'),
                has_name ==> rest_start == word_run_end(s, 1) && rest_start > 1,
                !has_name ==> rest_start == 0,
            decreases n - j,
        {
            let c = cs[j];
            if !(is_word_char(c) || c == '/' || c == '.' || c == '_' || c == ' ' || c == '-') {
                proof {
                    let rest = s.subrange(rest_start as int, n as int);
                    assert(rest[j - rest_start] == c);
                    if !has_name {
                        assert(rest =~= s);
                    }
                }
                return Err(PathError::NotRemappable);
            }
            j = j + 1;
        }
        let ghost rest = s.subrange(rest_start as int, n as int);
        proof {
            assert forall|i: int| 0 <= i < rest.len() implies path_char(#[trigger] rest[i]) by {
                assert(rest[i] == s[rest_start + i]);
            }
            if !has_name {
                assert(rest =~= s);
            }
        }
        let rest_str = input.substring_char(rest_start, n);
        let mut bytes: Vec<u8> = Vec::new();
        if has_name {
            let name = input.substring_char(1, rest_start);
            let key = vstd::slice::slice_to_vec(name.as_bytes());
            match self.map.get(&key) {
                Some(prefix) => {
                    bytes = prefix.clone();
                },
                None => {
                    return Err(PathError::UndefinedRemap);
                },
            }
        }
        let ghost prefix = bytes@;
        append_bytes(&mut bytes, rest_str.as_bytes());
        proof {
            if !has_name {
                assert(prefix =~= seq![]);
                assert(bytes@ =~= encode_utf8(rest));
            }
        }
        text_from_bytes(bytes)
    }
}

/// The step that puts a relative path under a root directory.
#[derive(Debug, Clone)]
pub struct SuffixRelativePath {
    root: Vec<u8>,
}

impl SuffixRelativePath {
    /// The bytes that a relative path is put after.
    pub closed spec fn root_bytes(&self) -> Seq<u8> {
        self.root@
    }

    /// Rooting under directory `s`: a separator is added after it.
    pub fn new(s: &str) -> (r: Self)
        ensures
            r.root_bytes() == encode_utf8(s@).push(SEPARATOR),
    {
        let mut v = vstd::slice::slice_to_vec(s.as_bytes());
        v.push(SEPARATOR);
        SuffixRelativePath { root: v }
    }
}

impl Default for SuffixRelativePath {
    fn default() -> (r: Self)
        ensures
            r.root_bytes() == Seq::<u8>::empty(),
    {
        SuffixRelativePath { root: Vec::new() }
    }
}

impl PathPluggable for SuffixRelativePath {
    open spec fn output_model(&self, input: Seq<char>) -> Result<Seq<char>, PathError> {
        reroot_model(self.root_bytes(), input)
    }

    fn output(&self, input: &str) -> (r: Result<String, PathError>) {
        if !input.is_empty() && input.get_char(0) == '/' {
            return Ok(String::from_str(input));
        }
        let mut bytes: Vec<u8> = Vec::new();
        append_bytes(&mut bytes, self.root.as_slice());
        append_bytes(&mut bytes, input.as_bytes());
        proof {
            assert(bytes@ =~= self.root@ + encode_utf8(input@));
        }
        text_from_bytes(bytes)
    }
}

/// One step of a path chain.
#[derive(Debug, Clone)]
pub enum PathPlugin {
    ForwardPath(ForwardPath),
    PathRemap(PathRemap),
    SuffixRelativePath(SuffixRelativePath),
}

impl Default for PathPlugin {
    fn default() -> (r: Self)
        ensures
            r is ForwardPath,
    {
        PathPlugin::ForwardPath(ForwardPath)
    }
}

impl PathPluggable for PathPlugin {
    open spec fn output_model(&self, input: Seq<char>) -> Result<Seq<char>, PathError> {
        match self {
            PathPlugin::ForwardPath(p) => p.output_model(input),
            PathPlugin::PathRemap(p) => p.output_model(input),
            PathPlugin::SuffixRelativePath(p) => p.output_model(input),
        }
    }

    fn output(&self, input: &str) -> (r: Result<String, PathError>) {
        match self {
            PathPlugin::ForwardPath(p) => p.output(input),
            PathPlugin::PathRemap(p) => p.output(input),
            PathPlugin::SuffixRelativePath(p) => p.output(input),
        }
    }
}

/// The result of running `plugins` in order on `input`; the first failure
/// stops the chain.
pub open spec fn run_plugins(plugins: Seq<PathPlugin>, input: Seq<char>) -> Result<
    Seq<char>,
    PathError,
>
    decreases plugins.len(),
{
    if plugins.len() == 0 {
        Ok(input)
    } else {
        match run_plugins(plugins.drop_last(), input) {
            Ok(s) => plugins.last().output_model(s),
            Err(e) => Err(e),
        }
    }
}

/// A chain of path steps, followed by separator clean-up.
#[derive(Debug, Clone)]
pub struct PathInterpreter {
    sequenced_plugin: Vec<PathPlugin>,
}

impl PathInterpreter {
    pub closed spec fn plugins(&self) -> Seq<PathPlugin> {
        self.sequenced_plugin@
    }

    /// The chain of `plugins`, in order.
    pub fn new(plugins: Vec<PathPlugin>) -> (r: Self)
        ensures
            r.plugins() == plugins@,
    {
        PathInterpreter { sequenced_plugin: plugins }
    }

    /// This chain with `p` added at its end.
    pub fn followed_by(self, p: PathPlugin) -> (r: Self)
        ensures
            r.plugins() == self.plugins().push(p),
    {
        let mut v = self.sequenced_plugin;
        v.push(p);
        PathInterpreter { sequenced_plugin: v }
    }

    /// The default chain with `plugin` after it.
    pub fn from_plugin(plugin: PathPlugin) -> (r: Self)
        ensures
            r.plugins().len() == 2,
            r.plugins()[0] is ForwardPath,
            r.plugins()[1] == plugin,
    {
        PathInterpreter::default().followed_by(plugin)
    }

    /// Runs the steps in order on `input`, then drops repeated separators.
    fn dedup(&self, input: &str) -> (r: Result<String, PathError>)
        ensures
            path_result_model(r) == self.output_model(input@),
    {
        let mut cur = String::from_str(input);
        let mut i: usize = 0;
        while i < self.sequenced_plugin.len()
            invariant
                i <= self.sequenced_plugin@.len(),
                run_plugins(self.sequenced_plugin@.take(i as int), input@) == Ok::<
                    Seq<char>,
                    PathError,
                >(cur@),
            decreases self.sequenced_plugin@.len() - i,
        {
            proof {
                let steps = self.sequenced_plugin@;
                assert(steps.take(i + 1).drop_last() =~= steps.take(i as int));
            }
            match self.sequenced_plugin[i].output(cur.as_str()) {
                Ok(next) => {
                    cur = next;
                },
                Err(e) => {
                    proof {
                        lemma_run_plugins_err(self.sequenced_plugin@, i as int + 1, input@);
                    }
                    return Err(e);
                },
            }
            i = i + 1;
        }
        proof {
            assert(self.sequenced_plugin@.take(self.sequenced_plugin@.len() as int)
                =~= self.sequenced_plugin@);
        }
        Ok(dedup_path_sep(cur.as_str()))
    }
}

/// A failure within the first `i` steps is the failure of the whole chain.
proof fn lemma_run_plugins_err(plugins: Seq<PathPlugin>, i: int, input: Seq<char>)
    requires
        0 <= i <= plugins.len(),
        run_plugins(plugins.take(i), input) is Err,
    ensures
        run_plugins(plugins, input) == run_plugins(plugins.take(i), input),
    decreases plugins.len() - i,
{
    if i < plugins.len() {
        assert(plugins.take(i + 1).drop_last() =~= plugins.take(i));
        lemma_run_plugins_err(plugins, i + 1, input);
    } else {
        assert(plugins.take(i) =~= plugins);
    }
}

impl Default for PathInterpreter {
    fn default() -> (r: Self)
        ensures
            r.plugins().len() == 1,
            r.plugins()[0] is ForwardPath,
    {
        PathInterpreter { sequenced_plugin: vec![PathPlugin::ForwardPath(ForwardPath)] }
    }
}

impl PathPluggable for PathInterpreter {
    open spec fn output_model(&self, input: Seq<char>) -> Result<Seq<char>, PathError> {
        match run_plugins(self.plugins(), input) {
            Ok(s) => Ok(dedup_model(s)),
            Err(e) => Err(e),
        }
    }

    fn output(&self, input: &str) -> (r: Result<String, PathError>) {
        self.dedup(input)
    }
}

} // verus!
