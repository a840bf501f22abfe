//! What file a path must be taken to name.

use crate::paths::{
    component_start, file_name_in, is_separator, last_dot, last_name, name_extension,
    next_separator, prefix_length,
};
use vstd::prelude::*;

verus! {

/// The text can be the name of a file: it holds no separator and is no dot or pair of dots.
pub open spec fn is_file_name(name: Seq<char>, windows: bool) -> bool {
    &&& name.len() > 0
    &&& forall|i: int|
        0 <= i < name.len() ==> #[trigger] name[i] != '/' && (windows ==> name[i] != '\\')
    &&& name != seq!['.']
    &&& name != seq!['.', '.']
}

proof fn lemma_component(front: Seq<char>, name: Seq<char>, windows: bool)
    requires
        front.len() == 0 || is_separator(front.last(), windows),
        forall|i: int| 0 <= i < name.len() ==> !is_separator(#[trigger] name[i], windows),
    ensures
        component_start(front + name, windows) == front.len(),
    decreases name.len(),
{
    if name.len() == 0 {
        assert(front + name =~= front);
    } else {
        let path = front + name;
        assert(path.last() == name[name.len() - 1]);
        assert(path.drop_last() =~= front + name.drop_last());
        assert forall|i: int| 0 <= i < name.drop_last().len() implies !is_separator(
            #[trigger] name.drop_last()[i],
            windows,
        ) by {
            assert(name[i] == name.drop_last()[i]);
        }
        lemma_component(front, name.drop_last(), windows);
    }
}

proof fn lemma_last_name(front: Seq<char>, name: Seq<char>, windows: bool)
    requires
        is_file_name(name, windows),
        front.len() == 0 || is_separator(front.last(), windows),
    ensures
        last_name(front + name, windows) == Some(name),
{
    let path = front + name;
    assert forall|i: int| 0 <= i < name.len() implies !is_separator(
        #[trigger] name[i],
        windows,
    ) by {}
    lemma_component(front, name, windows);
    assert(path.last() == name[name.len() - 1]);
    assert(path.skip(front.len() as int) =~= name);
}

/// The file that a path names is what stands behind its last separator.
pub proof fn law_file_name_is_behind_the_last_separator(
    directory: Seq<char>,
    separator: char,
    name: Seq<char>,
    windows: bool,
)
    requires
        is_file_name(name, windows),
        separator == '/' || (windows && separator == '\\'),
        prefix_length(directory.push(separator) + name, windows) <= directory.len(),
    ensures
        file_name_in(directory.push(separator) + name, windows) == Some(name),
{
    let path = directory.push(separator) + name;
    let cut = prefix_length(path, windows);
    lemma_prefix_counts(path, windows);
    let front = directory.push(separator).skip(cut);
    assert(path.skip(cut) =~= front + name);
    assert(front.last() == separator);
    lemma_last_name(front, name, windows);
}

proof fn lemma_separator_counts(path: Seq<char>, at: int, windows: bool)
    requires
        0 <= at,
    ensures
        next_separator(path, at, windows) >= at,
    decreases path.len() - at,
{
    if at < path.len() && !is_separator(path[at], windows) {
        lemma_separator_counts(path, at + 1, windows);
    }
}

proof fn lemma_prefix_counts(path: Seq<char>, windows: bool)
    ensures
        prefix_length(path, windows) >= 0,
{
    lemma_separator_counts(path, 2, windows);
    lemma_separator_counts(
        path,
        next_separator(path, 2, windows) + 1,
        windows,
    );
}

/// A name alone names its file, unless it begins as a drive does.
pub proof fn law_plain_name_names_its_file(name: Seq<char>, windows: bool)
    requires
        is_file_name(name, windows),
        windows ==> !name.contains(':'),
    ensures
        file_name_in(name, windows) == Some(name),
{
    if windows && name.len() >= 2 {
        assert(name.contains(name[1]));
        assert(!is_separator(name[0], windows));
    }
    assert(prefix_length(name, windows) == 0);
    assert(name.skip(0) =~= name);
    assert(Seq::<char>::empty() + name =~= name);
    lemma_last_name(Seq::empty(), name, windows);
}

/// A path that ends in two dots, and one of separators alone, names no file.
pub proof fn law_directories_name_no_file(directory: Seq<char>)
    ensures
        file_name_in(directory.push('/') + seq!['.', '.'], false) is None,
        file_name_in(seq!['/'], false) is None,
        file_name_in(Seq::empty(), false) is None,
{
    let front = directory.push('/');
    let dots = seq!['.', '.'];
    let path = front + dots;
    assert(path.skip(0) =~= path);
    lemma_component(front, dots, false);
    assert(path.last() == '.');
    assert(path.skip(front.len() as int) =~= dots);
    assert(dots != seq!['.']) by {
        assert(dots.len() == 2 && seq!['.'].len() == 1);
    }
    let root = seq!['/'];
    assert(root.skip(0) =~= root);
    assert(root.last() == '/');
    assert(root.drop_last() =~= Seq::empty());
    assert(Seq::<char>::empty().skip(0) =~= Seq::empty());
    assert(last_name(root.drop_last(), false) is None);
}

proof fn lemma_last_dot(stem: Seq<char>, rest: Seq<char>)
    requires
        !rest.contains('.'),
    ensures
        last_dot(stem.push('.') + rest) == stem.len(),
    decreases rest.len(),
{
    let name = stem.push('.') + rest;
    if rest.len() == 0 {
        assert(name =~= stem.push('.'));
    } else {
        assert(name.last() == rest[rest.len() - 1]);
        assert(rest.contains(rest[rest.len() - 1]));
        assert(name.drop_last() =~= stem.push('.') + rest.drop_last());
        if rest.drop_last().contains('.') {
            let i = rest.drop_last().index_of('.');
            assert(rest[i] == '.');
        }
        lemma_last_dot(stem, rest.drop_last());
    }
}

proof fn lemma_no_dot(name: Seq<char>)
    requires
        !name.contains('.'),
    ensures
        last_dot(name) == -1,
    decreases name.len(),
{
    if name.len() > 0 {
        assert(name.contains(name[name.len() - 1]));
        if name.drop_last().contains('.') {
            let i = name.drop_last().index_of('.');
            assert(name[i] == '.');
        }
        lemma_no_dot(name.drop_last());
    }
}

/// The extension is what stands behind the last dot; a name without a dot and one whose only
/// dot begins it have none.
pub proof fn law_extension_is_behind_the_last_dot(stem: Seq<char>, extension: Seq<char>)
    requires
        !extension.contains('.'),
    ensures
        stem.len() > 0 ==> name_extension(stem.push('.') + extension) == Some(extension),
        name_extension(seq!['.'] + extension) is None,
        name_extension(extension) is None,
{
    let name = stem.push('.') + extension;
    lemma_last_dot(stem, extension);
    assert(name.skip((stem.len() + 1) as int) =~= extension);
    lemma_last_dot(Seq::empty(), extension);
    assert(Seq::<char>::empty().push('.') =~= seq!['.']);
    lemma_no_dot(extension);
}

} // verus!
