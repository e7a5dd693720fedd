//! Backing files that killed processes have left behind.
//!
//! On Windows a mapping is backed by a file in one known directory. Before such
//! a file is removed it must be certain that it lies directly in there.

use vstd::prelude::*;

use crate::text;

verus! {

/// `name` without its leading slashes.
pub open spec fn trim_slashes(name: Seq<char>) -> Seq<char>
    decreases name.len(),
{
    if name.len() > 0 && name[0] == '/' {
        trim_slashes(name.drop_first())
    } else {
        name
    }
}

/// `name` is a plain file name: one path component that names neither the
/// directory itself nor its parent and has neither a separator nor a drive
/// prefix in it.
pub open spec fn is_file_name(name: Seq<char>) -> bool {
    &&& name.len() > 0
    &&& name != "."@
    &&& name != ".."@
    &&& forall|i: int| 0 <= i < name.len() ==> #[trigger] name[i] != '/' && name[i] != '\\'
    &&& !(name.len() >= 2 && is_drive_letter(name[0]) && name[1] == ':')
}

/// `c` can name a drive.
pub open spec fn is_drive_letter(c: char) -> bool {
    'a' <= c <= 'z' || 'A' <= c <= 'Z'
}

/// The file that backs the mapping of `name`, or `None` if the name could not
/// name a file directly inside the backing directory.
pub open spec fn backing_file(name: Seq<char>) -> Option<Seq<char>> {
    let trimmed = trim_slashes(name);
    if is_file_name(trimmed) {
        Some(trimmed)
    } else {
        None
    }
}

proof fn lemma_trim(name: Seq<char>, k: int)
    requires
        0 <= k <= name.len(),
        forall|i: int| 0 <= i < k ==> name[i] == '/',
        k == name.len() || name[k] != '/',
    ensures
        trim_slashes(name) == name.skip(k),
    decreases k,
{
    if k == 0 {
        assert(name.skip(0) =~= name);
    } else {
        lemma_trim(name.drop_first(), k - 1);
        assert(name.drop_first().skip(k - 1) =~= name.skip(k));
    }
}

/// Whether `name` is a plain file name.
pub fn is_plain_name(name: &str) -> (r: bool)
    ensures
        r == is_file_name(name@),
{
    let chars: Vec<char> = text::chars_of(name);
    let n: usize = chars.len();
    if n == 0 || text::same_text(name, ".") || text::same_text(name, "..") {
        return false;
    }
    let mut i: usize = 0;
    while i < n
        invariant
            i <= n == chars@.len(),
            chars@ == name@,
            forall|k: int| 0 <= k < i ==> #[trigger] name@[k] != '/' && name@[k] != '\\',
        decreases n - i,
    {
        if chars[i] == '/' || chars[i] == '\\' {
            assert(name@[i as int] == chars@[i as int]);
            return false;
        }
        i = i + 1;
    }
    !(n >= 2 && (('a' <= chars[0] && chars[0] <= 'z') || ('A' <= chars[0] && chars[0] <= 'Z'))
        && chars[1] == ':')
}

/// The name of the file, inside the backing directory, that backs the mapping
/// of `name`; `None` if the name could not name a file directly in there.
pub fn backing_file_name(name: &str) -> (r: Option<String>)
    ensures
        match r {
            Some(file) => backing_file(name@) == Some(file@),
            None => backing_file(name@) is None,
        },
{
    let chars: Vec<char> = text::chars_of(name);
    let n: usize = chars.len();
    let mut from: usize = 0;
    while from < n && chars[from] == '/'
        invariant
            from <= n == chars@.len(),
            forall|i: int| 0 <= i < from ==> chars@[i] == '/',
        decreases n - from,
    {
        from = from + 1;
    }
    proof {
        lemma_trim(name@, from as int);
    }
    let file = text::text_of(&chars, from, n);
    assert(file@ =~= name@.skip(from as int));
    if is_plain_name(file.as_str()) {
        Some(file)
    } else {
        None
    }
}

/// Finding a backing file may end like this: the directory that it really lies
/// in and the backing directory, or `None` where there is no such file.
pub open spec fn located<L: Fn(&str) -> Option<(String, String)>>(
    locate: L,
    file: Seq<char>,
    res: Option<(String, String)>,
) -> bool {
    exists|f: &str| f@ == file && #[trigger] locate.ensures((f,), res)
}

/// Removing a file that nobody else has open may end like this.
pub open spec fn removed<U: Fn(&str) -> bool>(remove: U, file: Seq<char>, res: bool) -> bool {
    exists|f: &str| f@ == file && #[trigger] remove.ensures((f,), res)
}

/// Try to remove an *orphaned* backing file for `name`, returning true if one
/// was removed.
///
/// `locate` tells where a file of the backing directory really lies once links
/// are resolved; `remove` removes it if no one has it open. A name that is not
/// a plain file name, a file that is not there, and one that really lies
/// somewhere else are left alone: `remove` need only be callable on a file that
/// was found in the backing directory.
pub fn reclaim_orphaned_backing_file<
    L: Fn(&str) -> Option<(String, String)>,
    U: Fn(&str) -> bool,
>(name: &str, locate: &L, remove: &U) -> (r: bool)
    requires
        forall|f: &str| backing_file(name@) == Some(f@) ==> #[trigger] locate.requires((f,)),
        forall|f: &str, parent: String, dir: String|
            #![trigger locate.ensures((f,), Some((parent, dir)))]
            backing_file(name@) == Some(f@) && locate.ensures((f,), Some((parent, dir)))
                && parent@ == dir@ ==> remove.requires((f,)),
    ensures
        match backing_file(name@) {
            None => !r,
            Some(file) => exists|place: Option<(String, String)>|
                {
                    &&& #[trigger] located(*locate, file, place)
                    &&& match place {
                        Some((parent, dir)) => if parent@ == dir@ {
                            removed(*remove, file, r)
                        } else {
                            !r
                        },
                        None => !r,
                    }
                },
        },
{
    let file = match backing_file_name(name) {
        Some(file) => file,
        None => return false,
    };
    let f: &str = file.as_str();
    assert(backing_file(name@)->Some_0 == f@);
    let place = locate(f);
    assert(located(*locate, f@, place));
    match place {
        Some((parent, dir)) => {
            if text::same_text(parent.as_str(), dir.as_str()) {
                remove(f)
            } else {
                false
            }
        },
        None => false,
    }
}

/// A name with a separator in it after its leading slashes, such as one that
/// walks up with `..`, backs no file, so nothing is ever removed on its account.
pub proof fn traversing_names_back_no_file(name: Seq<char>, i: int)
    requires
        0 <= i < trim_slashes(name).len(),
        trim_slashes(name)[i] == '/' || trim_slashes(name)[i] == '\\',
    ensures
        backing_file(name) is None,
{
}

/// A plain name, with or without slashes in front of it, backs the file of that
/// name: one that is not empty, names neither the directory nor its parent, has
/// no separator in it and does not start with a drive.
pub proof fn plain_names_back_their_file(name: Seq<char>)
    requires
        name.len() > 0,
        name != "."@,
        name != ".."@,
        forall|i: int| 0 <= i < name.len() ==> #[trigger] name[i] != '/' && name[i] != '\\',
        name.len() < 2 || name[1] != ':' || !('a' <= name[0] <= 'z' || 'A' <= name[0] <= 'Z'),
    ensures
        is_file_name(name),
        backing_file(name) == Some(name),
        backing_file(seq!['/'] + name) == Some(name),
{
    assert((seq!['/'] + name).drop_first() =~= name);
    assert(trim_slashes(name) == name);
    assert(trim_slashes(seq!['/'] + name) == trim_slashes((seq!['/'] + name).drop_first()));
}

/// Slashes in front of a name make no difference.
pub proof fn leading_slashes_make_no_difference(name: Seq<char>)
    ensures
        backing_file(seq!['/'] + name) == backing_file(name),
{
    assert((seq!['/'] + name).drop_first() =~= name);
}

/// A file that backs a mapping stands under its own name directly in the
/// backing directory: it is not empty, names neither the directory nor its
/// parent, has no separator in it and does not start with a drive.
pub proof fn backing_files_lie_in_their_directory(name: Seq<char>, file: Seq<char>)
    requires
        backing_file(name) == Some(file),
    ensures
        file.len() > 0,
        file != "."@,
        file != ".."@,
        forall|i: int| 0 <= i < file.len() ==> #[trigger] file[i] != '/' && file[i] != '\\',
        file.len() < 2 || file[1] != ':' || !('a' <= file[0] <= 'z' || 'A' <= file[0] <= 'Z'),
{
}

} // verus!
