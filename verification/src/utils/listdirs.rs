//! The directories a client offers to the server, and paths as the server
//! stores them.
use vstd::prelude::*;
use crate::types::FILE_CONFIG_SEPARATOR;
use crate::utils::text::push_char;
pub use crate::utils::paths::{trim_endspaces_in_files, trim_endspaces_spec};

verus! {

/// The directories never offered: system folders and temporary files.
#[allow(non_snake_case)]
pub fn EXCLUE_DIRS_DEFAULT() -> (r: Vec<String>)
    ensures
        r@.len() == 4,
        r@[0]@ == "WinSxS"@,
        r@[1]@ == "SysWOW64"@,
        r@[2]@ == "System32"@,
        r@[3]@ == "Temp"@,
{
    let mut v: Vec<String> = Vec::new();
    v.push("WinSxS".to_owned());
    v.push("SysWOW64".to_owned());
    v.push("System32".to_owned());
    v.push("Temp".to_owned());
    v
}

/// Whether a directory named `name` is left out.
pub fn is_excluded(name: &str, excludes: &Vec<String>) -> (b: bool)
    ensures
        b == exists|i: int| 0 <= i < excludes@.len() && #[trigger] excludes@[i]@ == name@,
{
    let mut i: usize = 0;
    let n = name.to_owned();
    while i < excludes.len()
        invariant
            i <= excludes@.len(),
            n@ == name@,
            forall|j: int| 0 <= j < i ==> #[trigger] excludes@[j]@ != name@,
        decreases excludes@.len() - i,
    {
        if excludes[i] == n {
            assert(excludes@[i as int]@ == name@);
            return true;
        }
        i = i + 1;
    }
    false
}

/// The roots a client searches for directories: each drive `a:\` to `z:\` on
/// Windows, `/` elsewhere.
pub fn drive_roots(is_windows: bool) -> (r: Vec<String>)
    ensures
        !is_windows ==> r@.len() == 1 && r@[0]@ == seq!['/'],
        is_windows ==> r@.len() == 26 && forall|i: int|
            0 <= i < 26 ==> #[trigger] r@[i]@ == seq![((97 + i) as u32) as char, ':', '\\'],
{
    let mut out: Vec<String> = Vec::new();
    if !is_windows {
        let mut s = String::new();
        push_char(&mut s, '/');
        out.push(s);
        assert(out@[0]@ =~= seq!['/']);
        return out;
    }
    let letters = ['a', 'b', 'c', 'd', 'e', 'f', 'g', 'h', 'i', 'j', 'k', 'l', 'm', 'n', 'o', 'p', 'q', 'r', 's', 't', 'u', 'v', 'w', 'x', 'y', 'z'];
    let mut i: usize = 0;
    while i < 26
        invariant
            i <= 26,
            letters@ == seq!['a', 'b', 'c', 'd', 'e', 'f', 'g', 'h', 'i', 'j', 'k', 'l', 'm', 'n', 'o', 'p', 'q', 'r', 's', 't', 'u', 'v', 'w', 'x', 'y', 'z'],
            out@.len() == i,
            forall|j: int|
                0 <= j < i ==> #[trigger] out@[j]@ == seq![((97 + j) as u32) as char, ':', '\\'],
        decreases 26 - i,
    {
        let mut s = String::new();
        push_char(&mut s, letters[i]);
        push_char(&mut s, ':');
        push_char(&mut s, '\\');
        assert(letters@[i as int] == ((97 + i) as u32) as char);
        assert(s@ =~= seq![((97 + i) as u32) as char, ':', '\\']);
        out.push(s);
        i = i + 1;
    }
    out
}

/// The lines that list directories: each path that is text, followed by a
/// line break.
pub open spec fn dir_lines_spec(paths: Seq<Option<Seq<char>>>) -> Seq<char>
    decreases paths.len(),
{
    if paths.len() == 0 {
        Seq::empty()
    } else {
        let head = match paths[0] {
            Some(p) => p + seq!['\r', '\n'],
            None => Seq::empty(),
        };
        head + dir_lines_spec(paths.drop_first())
    }
}

/// The text of each path, when it has one.
pub open spec fn path_views(paths: Seq<Option<String>>) -> Seq<Option<Seq<char>>> {
    paths.map_values(
        |p: Option<String>|
            match p {
                Some(s) => Some(s@),
                None => None,
            },
    )
}

/// Lines listed one after the other join up.
proof fn lemma_dir_lines_push(paths: Seq<Option<Seq<char>>>, p: Option<Seq<char>>)
    ensures
        dir_lines_spec(paths.push(p)) == dir_lines_spec(paths) + dir_lines_spec(seq![p]),
    decreases paths.len(),
{
    if paths.len() == 0 {
        assert(paths.push(p) =~= seq![p]);
        assert(dir_lines_spec(paths) =~= Seq::<char>::empty());
        assert(dir_lines_spec(seq![p]) =~= Seq::<char>::empty() + dir_lines_spec(seq![p]));
    } else {
        assert(paths.push(p).drop_first() =~= paths.drop_first().push(p));
        lemma_dir_lines_push(paths.drop_first(), p);
        let head = match paths[0] {
            Some(q) => q + seq!['\r', '\n'],
            None => Seq::empty(),
        };
        assert(dir_lines_spec(paths.push(p)) == head + dir_lines_spec(paths.drop_first().push(p)));
        assert(head + (dir_lines_spec(paths.drop_first()) + dir_lines_spec(seq![p])) =~= (head
            + dir_lines_spec(paths.drop_first())) + dir_lines_spec(seq![p]));
    }
}

/// The part of a client's settings file that the client sends: the
/// separator, a line break, then the directories it found, one per line
/// (those whose path is not text are left out).
pub fn directorys_info_to_string_part2(paths: &Vec<Option<String>>) -> (r: String)
    ensures
        r@ == FILE_CONFIG_SEPARATOR@ + seq!['\r', '\n'] + dir_lines_spec(path_views(paths@)),
{
    let mut ss = FILE_CONFIG_SEPARATOR.to_owned();
    push_char(&mut ss, '\r');
    push_char(&mut ss, '\n');
    let ghost head = ss@;
    let mut i: usize = 0;
    while i < paths.len()
        invariant
            i <= paths@.len(),
            head == FILE_CONFIG_SEPARATOR@ + seq!['\r', '\n'],
            ss@ == head + dir_lines_spec(path_views(paths@).take(i as int)),
        decreases paths@.len() - i,
    {
        proof {
            assert(path_views(paths@).take(i + 1) =~= path_views(paths@).take(i as int).push(
                path_views(paths@)[i as int],
            ));
            lemma_dir_lines_push(path_views(paths@).take(i as int), path_views(paths@)[i as int]);
        }
        match &paths[i] {
            Some(p) => {
                ss.append(p.as_str());
                push_char(&mut ss, '\r');
                push_char(&mut ss, '\n');
                assert(dir_lines_spec(seq![path_views(paths@)[i as int]]) =~= p@ + seq!['\r', '\n']
                    + dir_lines_spec(seq![path_views(paths@)[i as int]].drop_first()));
                assert(seq![path_views(paths@)[i as int]].drop_first() =~= Seq::<
                    Option<Seq<char>>,
                >::empty());
                assert(ss@ =~= head + dir_lines_spec(path_views(paths@).take(i + 1)));
            },
            None => {
                assert(seq![path_views(paths@)[i as int]].drop_first() =~= Seq::<
                    Option<Seq<char>>,
                >::empty());
                assert(dir_lines_spec(seq![path_views(paths@)[i as int]]) =~= Seq::<char>::empty());
                assert(ss@ =~= head + dir_lines_spec(path_views(paths@).take(i + 1)));
            },
        }
        i = i + 1;
    }
    assert(path_views(paths@).take(paths@.len() as int) =~= path_views(paths@));
    ss
}

} // verus!
