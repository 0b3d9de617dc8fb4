//! File paths as plain values: the text of a path and the names along it.

use crate::text::{
    copy_range, copy_strings, from_chars, last_index_of, push_all, rfind_char, split, split_chars,
    strings, text_view, texts, to_chars,
};
use vstd::prelude::*;

verus! {

/// A path, held as its text and as the names along it, outermost first.
/// The last name is the file or directory the path leads to.
#[derive(Debug)]
pub struct FilePath {
    pub path: String,
    pub components: Vec<String>,
}

/// A path as a mathematical value.
pub struct FilePathView {
    pub path: Seq<char>,
    pub components: Seq<Seq<char>>,
}

impl View for FilePath {
    type V = FilePathView;

    open spec fn view(&self) -> FilePathView {
        FilePathView { path: self.path@, components: strings(self.components@) }
    }
}

/// The paths held by a vector, as mathematical values.
pub open spec fn path_views(v: Seq<FilePath>) -> Seq<FilePathView> {
    Seq::new(v.len(), |i: int| v[i]@)
}

/// The last name of a path, if it has any name.
pub open spec fn file_name_of(p: FilePathView) -> Option<Seq<char>> {
    if p.components.len() > 0 {
        Some(p.components.last())
    } else {
        None
    }
}

/// The name of the directory that holds what the path leads to, if the path
/// names one.
pub open spec fn parent_name_of(p: FilePathView) -> Option<Seq<char>> {
    if p.components.len() >= 2 {
        Some(p.components[p.components.len() - 2])
    } else {
        None
    }
}

/// The extension of a file name: what follows its last dot, unless the name
/// has no dot or its only dot comes first.
pub open spec fn extension_of_name(name: Seq<char>) -> Option<Seq<char>> {
    let dot = rfind_char(name, '.');
    if dot <= 0 {
        None
    } else {
        Some(name.skip(dot + 1))
    }
}

/// The extension of the last name of a path.
pub open spec fn extension_of(p: FilePathView) -> Option<Seq<char>> {
    match file_name_of(p) {
        Some(name) => extension_of_name(name),
        None => None,
    }
}

/// The pieces that are not empty, in their order.
pub open spec fn nonempty(pieces: Seq<Seq<char>>) -> Seq<Seq<char>>
    decreases pieces.len(),
{
    if pieces.len() == 0 {
        Seq::empty()
    } else if pieces.last().len() > 0 {
        nonempty(pieces.drop_last()).push(pieces.last())
    } else {
        nonempty(pieces.drop_last())
    }
}

/// The path that leads from `base` on along the relative path `relative`,
/// whose names are separated by `/`.
pub open spec fn joined_path(base: FilePathView, relative: Seq<char>) -> FilePathView {
    FilePathView {
        path: if base.path.len() == 0 || base.path.last() == '/' {
            base.path + relative
        } else {
            base.path + seq!['/'] + relative
        },
        components: base.components + nonempty(split(relative, '/')),
    }
}

impl FilePath {
    /// The path that leads from this one on along `relative`.
    pub fn join(&self, relative: &str) -> (r: FilePath)
        ensures
            r@ == joined_path(self@, relative@),
    {
        let base = to_chars(self.path.as_str());
        let rest = to_chars(relative);
        let mut path: Vec<char> = Vec::new();
        push_all(&mut path, &base);
        assert(path@ == base@);
        if base.len() > 0 && base[base.len() - 1] != '/' {
            path.push('/');
            assert(path@ == base@ + seq!['/']);
        }
        push_all(&mut path, &rest);
        assert(path@ == joined_path(self@, relative@).path);
        let pieces = split_chars(&rest, '/');
        let mut components = copy_strings(&self.components);
        let ghost start = strings(components@);
        let n = pieces.len();
        let mut i: usize = 0;
        while i < n
            invariant
                i <= n,
                n == pieces.len(),
                strings(components@) == start + nonempty(texts(pieces@).take(i as int)),
            decreases n - i,
        {
            assert(texts(pieces@).take(i + 1).drop_last() == texts(pieces@).take(i as int));
            if pieces[i].len() > 0 {
                let ghost before = strings(components@);
                components.push(from_chars(&pieces[i]));
                assert(strings(components@) == before.push(pieces@[i as int]@));
            }
            i += 1;
        }
        assert(texts(pieces@).take(n as int) == texts(pieces@));
        assert(strings(components@) == joined_path(self@, relative@).components);
        FilePath { path: from_chars(&path), components }
    }

    /// The path with text `path` and the names `components` along it.
    pub fn new(path: String, components: Vec<String>) -> (r: FilePath)
        ensures
            r@.path == path@,
            r@.components == strings(components@),
    {
        FilePath { path, components }
    }

    /// A copy of this path.
    pub fn duplicate(&self) -> (r: FilePath)
        ensures
            r@ == self@,
    {
        FilePath { path: self.path.clone(), components: copy_strings(&self.components) }
    }

    /// The last name of the path.
    pub fn file_name(&self) -> (r: Option<Vec<char>>)
        ensures
            chars_view(r) == file_name_of(self@),
    {
        let n = self.components.len();
        if n > 0 {
            Some(to_chars(self.components[n - 1].as_str()))
        } else {
            None
        }
    }

    /// The name of the directory that holds what the path leads to.
    pub fn parent_name(&self) -> (r: Option<String>)
        ensures
            text_view(r) == parent_name_of(self@),
    {
        let n = self.components.len();
        if n >= 2 {
            Some(self.components[n - 2].clone())
        } else {
            None
        }
    }

    /// The extension of the last name of the path.
    pub fn extension(&self) -> (r: Option<Vec<char>>)
        ensures
            chars_view(r) == extension_of(self@),
    {
        match self.file_name() {
            Some(name) => {
                match last_index_of(&name, '.') {
                    Some(dot) => {
                        if dot == 0 {
                            None
                        } else {
                            Some(copy_range(&name, dot + 1, name.len()))
                        }
                    },
                    None => None,
                }
            },
            None => None,
        }
    }
}

/// Characters that may be absent, as a mathematical value.
pub open spec fn chars_view(t: Option<Vec<char>>) -> Option<Seq<char>> {
    match t {
        Some(s) => Some(s@),
        None => None,
    }
}

} // verus!
