//! What stands in for options that were not given.

use vstd::prelude::*;

use crate::text::reads;

verus! {

/// Where the dashboard's socket is, given the value of `XDG_RUNTIME_DIR`: in that
/// directory, or under `/tmp` where it is unset or empty.
pub fn default_socket(runtime_dir: Option<String>) -> (path: String)
    ensures
        path@ == (match runtime_dir {
            Some(dir) => if dir@.len() > 0 {
                dir@ + "/acp-tap.sock"@
            } else {
                "/tmp/acp-tap.sock"@
            },
            None => "/tmp/acp-tap.sock"@,
        }),
{
    match runtime_dir {
        Some(dir) => {
            if !dir.as_str().is_empty() {
                return dir.concat("/acp-tap.sock");
            }
        },
        None => {},
    }
    "/tmp/acp-tap.sock".to_string()
}

/// What follows the last slash of a path, or all of it where there is none.
pub open spec fn leaf(path: Seq<char>) -> Seq<char>
    decreases path.len(),
{
    if path.len() == 0 || path.last() == '/' {
        Seq::empty()
    } else {
        leaf(path.drop_last()).push(path.last())
    }
}

/// The last component of a path, if it is a name. Slashes at the end and components
/// that are a single dot do not count; `..` is no name.
pub open spec fn last_name(path: Seq<char>) -> Option<Seq<char>>
    decreases path.len(),
{
    let last = leaf(path);
    if last.len() == 0 || last == "."@ {
        if last.len() >= path.len() {
            None
        } else {
            last_name(path.take(path.len() - last.len() - 1))
        }
    } else if last == ".."@ {
        None
    } else {
        Some(last)
    }
}

proof fn lemma_leaf(path: Seq<char>)
    ensures
        leaf(path).len() <= path.len(),
        leaf(path) == path.skip(path.len() - leaf(path).len()),
        forall|i: int| 0 <= i < leaf(path).len() ==> leaf(path)[i] != '/',
        leaf(path).len() < path.len() ==> path[path.len() - leaf(path).len() - 1] == '/',
    decreases path.len(),
{
    if path.len() > 0 && path.last() != '/' {
        lemma_leaf(path.drop_last());
        assert(leaf(path) =~= path.skip(path.len() - leaf(path).len()));
    } else {
        assert(leaf(path) =~= path.skip(path.len() - leaf(path).len()));
    }
}

/// A last name is never empty and holds no slash, and a path that ends in a name goes
/// by exactly what follows its last slash.
pub proof fn names_are_components(path: Seq<char>)
    ensures
        last_name(path) matches Some(name) ==> name.len() > 0 && forall|i: int|
            0 <= i < name.len() ==> name[i] != '/',
        leaf(path).len() > 0 && leaf(path) != "."@ && leaf(path) != ".."@ ==> last_name(path)
            == Some(leaf(path)),
    decreases path.len(),
{
    lemma_leaf(path);
    if leaf(path).len() < path.len() {
        names_are_components(path.take(path.len() - leaf(path).len() - 1));
    }
}

/// The root directory has no name, and neither has the empty path.
pub proof fn the_root_has_no_name(slashes: Seq<char>)
    requires
        forall|i: int| 0 <= i < slashes.len() ==> slashes[i] == '/',
    ensures
        last_name(slashes) is None,
    decreases slashes.len(),
{
    if slashes.len() > 0 {
        assert(slashes.last() == slashes[slashes.len() - 1]);
        the_root_has_no_name(slashes.take(slashes.len() - 1));
    }
}

/// Whether a path component is a name.
pub open spec fn is_name(name: Seq<char>) -> bool {
    &&& name.len() > 0
    &&& name != seq!['.']
    &&& name != seq!['.', '.']
    &&& forall|i: int| 0 <= i < name.len() ==> name[i] != '/'
}

proof fn lemma_leaf_of(dir: Seq<char>, name: Seq<char>)
    requires
        forall|i: int| 0 <= i < name.len() ==> name[i] != '/',
    ensures
        leaf(name) == name,
        leaf(dir.push('/') + name) == name,
    decreases name.len(),
{
    if name.len() == 0 {
        assert(dir.push('/') + name =~= dir.push('/'));
        assert(name =~= Seq::empty());
    } else {
        let front = name.drop_last();
        assert(forall|i: int| 0 <= i < front.len() ==> front[i] == name[i]);
        lemma_leaf_of(dir, front);
        assert(name.last() == name[name.len() - 1]);
        assert((dir.push('/') + name).drop_last() =~= dir.push('/') + front);
        assert((dir.push('/') + name).last() == name.last());
        assert(front.push(name.last()) =~= name);
    }
}

proof fn lemma_dots()
    ensures
        "."@ == seq!['.'],
        ".."@ == seq!['.', '.'],
{
    reveal_strlit(".");
    reveal_strlit("..");
    assert("."@ =~= seq!['.']);
    assert(".."@ =~= seq!['.', '.']);
}

/// A directory goes by its name, wherever it is.
pub proof fn directories_go_by_their_name(dir: Seq<char>, name: Seq<char>)
    requires
        is_name(name),
    ensures
        last_name(dir + seq!['/'] + name) == Some(name),
        last_name(name) == Some(name),
{
    lemma_dots();
    lemma_leaf_of(dir, name);
    assert(dir + seq!['/'] + name =~= dir.push('/') + name);
}

/// A slash at the end makes no difference to a path's name, and neither does a single
/// dot as its last component.
pub proof fn slashes_and_dots_do_not_count(path: Seq<char>)
    ensures
        last_name(path + seq!['/']) == last_name(path),
        last_name(path + seq!['/', '.']) == last_name(path),
{
    lemma_dots();
    lemma_leaf_of(path, Seq::empty());
    lemma_leaf_of(path, seq!['.']);
    assert(path + seq!['/'] =~= path.push('/') + Seq::<char>::empty());
    assert(path + seq!['/', '.'] =~= path.push('/') + seq!['.']);
    assert((path + seq!['/']).take(path.len() as int) =~= path);
    assert((path + seq!['/', '.']).take(path.len() as int) =~= path);
}

/// A path that ends in its parent has no name.
pub proof fn parents_have_no_name(dir: Seq<char>)
    ensures
        last_name(dir + seq!['/', '.', '.']) is None,
        last_name(seq!['.', '.']) is None,
{
    lemma_dots();
    lemma_leaf_of(dir, seq!['.', '.']);
    assert(dir + seq!['/', '.', '.'] =~= dir.push('/') + seq!['.', '.']);
}

/// The last component of a path, if it is a name.
pub fn base_name(path: &str) -> (name: Option<String>)
    ensures
        name.deep_view() == last_name(path@),
{
    let mut end: usize = path.unicode_len();
    assert(path@.take(end as int) =~= path@);
    loop
        invariant
            end <= path@.len(),
            last_name(path@.take(end as int)) == last_name(path@),
        decreases end,
    {
        let ghost upto = path@.take(end as int);
        let mut start: usize = end;
        while start > 0 && path.get_char(start - 1) != '/'
            invariant
                start <= end <= path@.len(),
                forall|i: int| start <= i < end ==> path@[i] != '/',
            decreases start,
        {
            start = start - 1;
        }
        proof {
            lemma_leaf(upto);
            let n = leaf(upto).len();
            if n > end - start {
                assert(leaf(upto)[n - (end - start) - 1] == upto[start - 1]);
            } else if n < end - start {
                assert(upto[end - n - 1] == '/');
            }
            assert(leaf(upto) =~= path@.subrange(start as int, end as int));
        }
        let last: String = path.substring_char(start, end).to_string();
        if start == end || reads(&last, ".") {
            if start == 0 {
                return None;
            }
            assert(upto.take(start - 1) =~= path@.take(start - 1));
            end = start - 1;
        } else if reads(&last, "..") {
            return None;
        } else {
            return Some(last);
        }
    }
}

/// The label of an agent, given the path of the working directory, if it is known: the
/// directory's name, or a general one where it has none.
pub fn default_label(directory: Option<String>) -> (label: String)
    ensures
        label@ == (match directory {
            Some(path) => match last_name(path@) {
                Some(name) => name,
                None => "agent"@,
            },
            None => "agent"@,
        }),
        label@.len() > 0,
{
    if let Some(path) = directory {
        proof {
            names_are_components(path@);
        }
        if let Some(name) = base_name(path.as_str()) {
            return name;
        }
    }
    proof {
        reveal_strlit("agent");
    }
    "agent".to_string()
}

/// The exit code to end with, given the agent's: zero where it has none, as when a
/// signal ended it.
pub fn exit_code(agent: Option<i32>) -> (code: i32)
    ensures
        code == (match agent {
            Some(own) => own,
            None => 0,
        }),
{
    match agent {
        Some(own) => own,
        None => 0,
    }
}

} // verus!
