use vstd::prelude::*;
use crate::util::text::{chars_of, string_of_range};
use crate::util::views::{lemma_deep_view_index, lemma_deep_view_push};

verus! {

/// A path in a file system, held as the chain of its components' names, from
/// the outermost folder to the file.
///
/// Two paths are the same path exactly when their components are the same, so
/// nothing here depends on how a platform writes a path down.
#[derive(Debug, PartialEq, Eq)]
pub struct FilePath {
    pub components: Vec<String>,
}

impl View for FilePath {
    type V = Seq<Seq<char>>;

    open spec fn view(&self) -> Seq<Seq<char>> {
        self.components.deep_view()
    }
}

impl DeepView for FilePath {
    type V = Seq<Seq<char>>;

    open spec fn deep_view(&self) -> Seq<Seq<char>> {
        self.view()
    }
}

impl Clone for FilePath {
    fn clone(&self) -> (r: Self)
        ensures
            r@ == self@,
    {
        let components = self.components.clone();
        assert(components@ =~= self.components@);
        FilePath { components }
    }
}

/// The folder that holds `path`: the path without its last component, and the
/// empty path where there is none.
pub open spec fn parent_of(path: Seq<Seq<char>>) -> Seq<Seq<char>> {
    if path.len() == 0 {
        path
    } else {
        path.drop_last()
    }
}

/// The last component of `path`, and the empty name where there is none.
pub open spec fn file_name_of(path: Seq<Seq<char>>) -> Seq<char> {
    if path.len() == 0 {
        Seq::empty()
    } else {
        path.last()
    }
}

/// Where `c` stands last in `s`, and -1 where it does not occur.
pub open spec fn last_index_of(s: Seq<char>, c: char) -> int
    decreases s.len(),
{
    if s.len() == 0 {
        -1
    } else if s.last() == c {
        s.len() - 1
    } else {
        last_index_of(s.drop_last(), c)
    }
}

/// What follows the last dot of a file's name. A name without a dot, or with
/// its only dot in front, has the empty extension.
pub open spec fn extension_of(name: Seq<char>) -> Seq<char> {
    let dot = last_index_of(name, '.');
    if dot > 0 {
        name.skip(dot + 1)
    } else {
        Seq::empty()
    }
}

/// What stands before the last dot of a file's name. A name without a dot, or
/// with its only dot in front, is its own stem.
pub open spec fn stem_of(name: Seq<char>) -> Seq<char> {
    let dot = last_index_of(name, '.');
    if dot > 0 {
        name.take(dot)
    } else {
        name
    }
}

/// `path` followed by one more component. An empty name adds nothing.
pub open spec fn with_name(path: Seq<Seq<char>>, name: Seq<char>) -> Seq<Seq<char>> {
    if name.len() == 0 {
        path
    } else {
        path.push(name)
    }
}

/// How many leading components two paths share.
pub open spec fn common_length(one: Seq<Seq<char>>, two: Seq<Seq<char>>) -> nat
    decreases one.len(),
{
    if one.len() > 0 && two.len() > 0 && one[0] == two[0] {
        1 + common_length(one.drop_first(), two.drop_first())
    } else {
        0
    }
}

/// What is left of `path` below `base`, and the empty path where `path` does
/// not lie below `base`.
pub open spec fn below(path: Seq<Seq<char>>, base: Seq<Seq<char>>) -> Seq<Seq<char>> {
    if base.is_prefix_of(path) {
        path.skip(base.len() as int)
    } else {
        Seq::empty()
    }
}

/// Where the last dot of `chars` stands, if there is one.
fn find_last_dot(chars: &Vec<char>) -> (r: Option<usize>)
    ensures
        match r {
            Some(i) => last_index_of(chars@, '.') == i && i < chars.len(),
            None => last_index_of(chars@, '.') == -1,
        },
{
    let mut i: usize = chars.len();
    assert(chars@.take(i as int) =~= chars@);
    while i > 0
        invariant
            i <= chars.len(),
            last_index_of(chars@, '.') == last_index_of(chars@.take(i as int), '.'),
        decreases i,
    {
        if chars[i - 1] == '.' {
            return Some(i - 1);
        }
        assert(chars@.take(i as int).drop_last() =~= chars@.take(i - 1));
        i -= 1;
    }
    None
}

/// The extension of a file's name.
pub fn extension_of_name(name: &str) -> (r: String)
    ensures
        r@ == extension_of(name@),
{
    let chars = chars_of(name);
    match find_last_dot(&chars) {
        Some(dot) => {
            if dot > 0 {
                let r = string_of_range(&chars, dot + 1, chars.len());
                assert(chars@.subrange(dot + 1, chars@.len() as int) =~= chars@.skip(dot + 1));
                r
            } else {
                String::new()
            }
        },
        None => String::new(),
    }
}

/// The stem of a file's name.
pub fn stem_of_name(name: &str) -> (r: String)
    ensures
        r@ == stem_of(name@),
{
    let chars = chars_of(name);
    match find_last_dot(&chars) {
        Some(dot) => {
            if dot > 0 {
                let r = string_of_range(&chars, 0, dot);
                assert(chars@.subrange(0, dot as int) =~= chars@.take(dot as int));
                r
            } else {
                name.to_owned()
            }
        },
        None => name.to_owned(),
    }
}

/// What a path can say of itself without looking at the file system.
pub trait PathExtensions: Sized {
    /// The name of the last component, and the empty name where there is none.
    fn file_name_or_empty(&self) -> String;

    /// The extension of the last component's name.
    fn extension_or_empty(&self) -> String;

    /// The path below `base`, and the empty path where it does not lie there.
    fn strip_prefix_or_same(&self, base: &Self) -> Self;

    /// The path of the folder around, and the empty path where there is none.
    fn parent_or_empty(&self) -> Self;
}

impl PathExtensions for FilePath {
    fn file_name_or_empty(&self) -> (r: String)
        ensures
            r@ == file_name_of(self@),
    {
        let n = self.components.len();
        if n == 0 {
            String::new()
        } else {
            self.components[n - 1].clone()
        }
    }

    fn extension_or_empty(&self) -> (r: String)
        ensures
            r@ == extension_of(file_name_of(self@)),
    {
        let name = self.file_name_or_empty();
        extension_of_name(name.as_str())
    }

    fn strip_prefix_or_same(&self, base: &Self) -> (r: Self)
        ensures
            r@ == below(self@, base@),
    {
        let n = base.components.len();
        if n > self.components.len() {
            return FilePath::new();
        }
        let mut i: usize = 0;
        while i < n
            invariant
                i <= n <= self.components.len(),
                n == base.components.len(),
                forall|k: int| 0 <= k < i ==> self@[k] == base@[k],
            decreases n - i,
        {
            if self.components[i] != base.components[i] {
                assert(self@[i as int] != base@[i as int]);
                return FilePath::new();
            }
            i += 1;
        }
        assert(base@ =~= self@.subrange(0, n as int));
        let mut components: Vec<String> = Vec::new();
        let mut j: usize = n;
        while j < self.components.len()
            invariant
                n <= j <= self.components.len(),
                components.deep_view() == self@.subrange(n as int, j as int),
            decreases self.components.len() - j,
        {
            let ghost before = components;
            components.push(self.components[j].clone());
            proof {
                lemma_deep_view_push(before, components, self.components[j as int]);
            }
            assert(components.deep_view() =~= self@.subrange(n as int, j + 1));
            j += 1;
        }
        assert(self@.subrange(n as int, self@.len() as int) =~= self@.skip(n as int));
        FilePath { components }
    }

    fn parent_or_empty(&self) -> (r: Self)
        ensures
            r@ == parent_of(self@),
    {
        let mut components = self.components.clone();
        assert(components@ =~= self.components@);
        if components.len() > 0 {
            components.pop();
            assert(components.deep_view() =~= self@.drop_last());
        }
        FilePath { components }
    }
}

impl FilePath {
    /// The empty path.
    pub fn new() -> (r: Self)
        ensures
            r@ == Seq::<Seq<char>>::empty(),
    {
        let r = FilePath { components: Vec::new() };
        assert(r@ =~= Seq::<Seq<char>>::empty());
        r
    }

    /// Whether two paths are the same path.
    pub fn same_as(&self, other: &Self) -> (r: bool)
        ensures
            r == (self@ == other@),
    {
        proof {
            lemma_deep_view_index(self.components);
            lemma_deep_view_index(other.components);
        }
        if self.components.len() != other.components.len() {
            return false;
        }
        let mut i: usize = 0;
        while i < self.components.len()
            invariant
                i <= self.components.len(),
                self.components.len() == other.components.len(),
                forall|k: int| 0 <= k < i ==> self@[k] == other@[k],
            decreases self.components.len() - i,
        {
            if self.components[i] != other.components[i] {
                assert(self@[i as int] != other@[i as int]);
                return false;
            }
            i += 1;
        }
        assert(self@ =~= other@);
        true
    }

    /// The stem of the last component's name.
    pub fn file_stem_or_empty(&self) -> (r: String)
        ensures
            r@ == stem_of(file_name_of(self@)),
    {
        let name = self.file_name_or_empty();
        stem_of_name(name.as_str())
    }

    /// This path followed by the components of `other`.
    pub fn join(&self, other: &Self) -> (r: Self)
        ensures
            r@ == self@ + other@,
    {
        let mut components = self.components.clone();
        assert(components@ =~= self.components@);
        let mut i: usize = 0;
        while i < other.components.len()
            invariant
                i <= other.components.len(),
                components.deep_view() == self@ + other@.take(i as int),
            decreases other.components.len() - i,
        {
            let ghost before = components;
            components.push(other.components[i].clone());
            proof {
                lemma_deep_view_push(before, components, other.components[i as int]);
            }
            assert(components.deep_view() =~= self@ + other@.take(i + 1));
            i += 1;
        }
        assert(other@.take(other@.len() as int) =~= other@);
        FilePath { components }
    }

    /// This path followed by one more component; an empty name adds nothing.
    pub fn join_name(&self, name: &str) -> (r: Self)
        ensures
            r@ == with_name(self@, name@),
    {
        let mut components = self.components.clone();
        assert(components@ =~= self.components@);
        if name.unicode_len() > 0 {
            components.push(name.to_owned());
            assert(components.deep_view() =~= self@.push(name@));
        }
        FilePath { components }
    }

    /// The leading components that two paths share. `None` where they share
    /// none.
    pub fn common_path(&self, other: &Self) -> (r: Option<Self>)
        ensures
            match r {
                Some(prefix) => common_length(self@, other@) > 0 && prefix@ == self@.take(
                    common_length(self@, other@) as int,
                ),
                None => common_length(self@, other@) == 0,
            },
    {
        let mut components: Vec<String> = Vec::new();
        let mut i: usize = 0;
        assert(self@.skip(0) =~= self@ && other@.skip(0) =~= other@);
        while i < self.components.len() && i < other.components.len() && self.components[i]
            == other.components[i]
            invariant
                i <= self.components.len(),
                i <= other.components.len(),
                components.deep_view() == self@.take(i as int),
                common_length(self@, other@) == i + common_length(
                    self@.skip(i as int),
                    other@.skip(i as int),
                ),
            decreases self.components.len() - i,
        {
            let ghost before = components;
            components.push(self.components[i].clone());
            proof {
                lemma_deep_view_push(before, components, self.components[i as int]);
            }
            assert(components.deep_view() =~= self@.take(i + 1));
            assert(self@.skip(i as int).drop_first() =~= self@.skip(i + 1));
            assert(other@.skip(i as int).drop_first() =~= other@.skip(i + 1));
            assert(self@.skip(i as int)[0] == other@.skip(i as int)[0]);
            i += 1;
        }
        proof {
            if i < self.components.len() && i < other.components.len() {
                assert(self@.skip(i as int)[0] != other@.skip(i as int)[0]);
            }
        }
        if i == 0 {
            None
        } else {
            Some(FilePath { components })
        }
    }
}

} // verus!
