use itertools::Itertools;
use la_template::{
    dedup_path_sep, ForwardPath, PathError, PathInterpreter, PathPluggable, PathPlugin, PathRemap,
    SuffixRelativePath,
};

fn dedup(input: &str) -> String {
    dedup_path_sep(input)
}

#[test]
fn forward() {
    assert_eq!(dedup("hello/world"), "hello/world");
    assert_eq!(dedup("hello"), "hello");
    assert_eq!(dedup("0/1/2/3/4"), "0/1/2/3/4");
}

#[test]
fn filter() {
    assert_eq!(dedup("hello//world"), "hello/world");
    assert_eq!(dedup("hello/"), "hello");
    assert_eq!(dedup("0/1//2///3////4"), "0/1/2/3/4");
}

#[test]
fn dedup_keeps_root_and_leading_dot() {
    assert_eq!(dedup("/home//ubuntu/"), "/home/ubuntu");
    assert_eq!(dedup("./a.out"), "./a.out");
    assert_eq!(dedup("a/./b/."), "a/b");
    assert_eq!(dedup("../x"), "../x");
    assert_eq!(dedup("/"), "");
    assert_eq!(dedup(""), "");
}

#[test]
fn single_forward() {
    let relative = ForwardPath::default()
        .output("proper/relative/path")
        .expect("proper relative should not be err");
    assert_eq!(relative.as_str(), "proper/relative/path");
    let absolute = ForwardPath::default()
        .output("/this/is/absolute")
        .expect("absolute should not be err");
    assert_eq!(absolute.as_str(), "/this/is/absolute");
    let relative_dot = ForwardPath::default()
        .output("./a.out")
        .expect("current directory should not err");
    assert_eq!(relative_dot.as_str(), "./a.out");
}

fn greeting_remap() -> PathPlugin {
    PathPlugin::PathRemap(PathRemap::new(vec![
        (b"hello".to_vec(), b"world".to_vec()),
        (b"new phone".to_vec(), b"who dis".to_vec()),
    ]))
}

#[test]
fn bypass_absolute() {
    // any absolute path must be respected.
    let abs_str = "/home/ubuntu/hello.txt";

    let forward = PathPlugin::ForwardPath(ForwardPath::default());
    let empty_remap = PathPlugin::PathRemap(PathRemap::default());
    let empty_suffix = PathPlugin::SuffixRelativePath(SuffixRelativePath::default());
    let some_remap = greeting_remap();
    let rel_suffix = PathPlugin::SuffixRelativePath(SuffixRelativePath::new("my/root/folder"));
    let rel_suffix_trail =
        PathPlugin::SuffixRelativePath(SuffixRelativePath::new("my/root/folder/"));

    assert_eq!(forward.output(abs_str).expect("Should not err"), abs_str);
    assert_eq!(empty_remap.output(abs_str).expect("Should not err"), abs_str);
    assert_eq!(empty_suffix.output(abs_str).expect("Should not err"), abs_str);
    assert_eq!(some_remap.output(abs_str).expect("Should not err"), abs_str);
    assert_eq!(rel_suffix.output(abs_str).expect("Should not err"), abs_str);
    assert_eq!(rel_suffix_trail.output(abs_str).expect("Should not err"), abs_str);
}

#[test]
fn bypass_composition() {
    // Composition of plugins that are bypassed
    // will also be bypassed
    let abs_str = "/home/ubuntu/hello.txt";

    let forward = PathPlugin::ForwardPath(ForwardPath::default());
    let some_remap = greeting_remap();
    let rel_suffix = PathPlugin::SuffixRelativePath(SuffixRelativePath::new("my/root/folder"));
    let rel_suffix_trail =
        PathPlugin::SuffixRelativePath(SuffixRelativePath::new("my/root/folder/"));

    let plugins = vec![forward, some_remap, rel_suffix, rel_suffix_trail];

    for tup in plugins.iter().permutations(plugins.len()) {
        let chain: Vec<PathPlugin> = tup.iter().map(|p| (*p).clone()).collect();
        let output = PathInterpreter::new(chain).output(abs_str).expect("Should not err");
        assert_eq!(output, abs_str);
    }
}

fn number_remap() -> PathPlugin {
    PathPlugin::PathRemap(PathRemap::new(vec![
        (b"hello".to_vec(), b"world".to_vec()),
        (b"new_phone".to_vec(), b"who_dis".to_vec()),
        (b"my_number_is".to_vec(), b"123456-789".to_vec()),
    ]))
}

#[test]
fn remap() {
    // The interpreter removes duplicated separators; a single plugin need not.
    let interp = PathInterpreter::from_plugin(number_remap());
    let output_res = |abs_str| interp.output(abs_str);
    let output_str = |abs_str| output_res(abs_str).unwrap();
    assert_eq!(output_str("relative//no/remap"), "relative/no/remap");
    assert_eq!(output_str("@hello/src/pages/index.tsx"), "world/src/pages/index.tsx");
    assert_eq!(output_str("@new_phone"), "who_dis");
    assert!(matches!(
        output_res("/should/use/suffix/plugin/after/remap/@my_number_is"),
        Err(_)
    ));
    assert!(matches!(output_res("@err/on/undefined/ref"), Err(_)));
    assert!(matches!(output_res("@err_on_singleton_path"), Err(_)));
}

#[test]
fn remap_then_reroot() {
    let rel_prefix = PathPlugin::SuffixRelativePath(SuffixRelativePath::new("relative/path"));
    let abs_prefix = PathPlugin::SuffixRelativePath(SuffixRelativePath::new("/absolute/path/"));

    let rel = PathInterpreter::from_plugin(number_remap());
    let abs = rel.clone().followed_by(abs_prefix);
    let rel = rel.followed_by(rel_prefix);

    let output = |interp: &PathInterpreter, path| interp.output(path);
    let output_str =
        |interp, path| output(interp, path).expect("Should produce output str");

    assert_eq!(output_str(&abs, "no_remap"), "/absolute/path/no_remap");
    assert_eq!(output_str(&rel, "no_remap"), "relative/path/no_remap");

    assert!(matches!(output(&abs, "remap/error/@hello"), Err(_)));
    assert!(matches!(output(&rel, "@unprovided/remap"), Err(_)));

    assert_eq!(output_str(&abs, "@new_phone"), "/absolute/path/who_dis");
    assert_eq!(output_str(&rel, "@my_number_is"), "relative/path/123456-789");
}

#[test]
fn remap_error_kinds() {
    let remap = number_remap();
    assert_eq!(remap.output("@#x"), Err(PathError::NotRemappable));
    assert_eq!(remap.output("@"), Err(PathError::NotRemappable));
    assert_eq!(remap.output("a/b@c"), Err(PathError::NotRemappable));
    assert_eq!(remap.output("@nobody/x"), Err(PathError::UndefinedRemap));
    let bad = PathPlugin::PathRemap(PathRemap::new(vec![(b"bad".to_vec(), vec![0xff])]));
    assert_eq!(bad.output("@bad/x"), Err(PathError::InvalidText));
}

#[test]
fn remap_unicode_word_names() {
    // Non-ASCII letters belong to the word class, non-word symbols do not.
    let remap = PathPlugin::PathRemap(PathRemap::new(vec![(
        "café".as_bytes().to_vec(),
        b"bar".to_vec(),
    )]));
    assert_eq!(remap.output("@café/x.txt").unwrap(), "bar/x.txt");
    assert_eq!(remap.output("@caf→/x"), Err(PathError::NotRemappable));
    assert_eq!(remap.output("ünïcode/path").unwrap(), "ünïcode/path");
}

#[test]
fn remap_later_pair_wins() {
    let remap = PathPlugin::PathRemap(PathRemap::new(vec![
        (b"a".to_vec(), b"first".to_vec()),
        (b"a".to_vec(), b"second".to_vec()),
    ]));
    assert_eq!(remap.output("@a/x").unwrap(), "second/x");
}

#[test]
fn reroot_relative_and_default() {
    let under = SuffixRelativePath::new("root");
    assert_eq!(under.output("x/y").unwrap(), "root/x/y");
    assert_eq!(under.output("").unwrap(), "root/");
    assert_eq!(SuffixRelativePath::default().output("x").unwrap(), "x");
}

#[test]
fn interpreter_default_and_error_stops_chain() {
    let interp = PathInterpreter::default();
    assert_eq!(interp.output("a//b/").unwrap(), "a/b");
    let chain = PathInterpreter::new(vec![
        number_remap(),
        PathPlugin::SuffixRelativePath(SuffixRelativePath::new("/r")),
    ]);
    assert_eq!(chain.output("@zzz"), Err(PathError::UndefinedRemap));
    assert_eq!(chain.output("@hello").unwrap(), "/r/world");
}
