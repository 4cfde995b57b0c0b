//! The managed layout of stores: one for the user, and one per project.

use crate::error;
use crate::error::Error;
use crate::text;
use crate::text::{concat2, concat3, is_blank, to_chars};
use vstd::prelude::*;
use vstd::string::*;

verus! {

/// The directory of the layout, which names its version.
pub const LAYOUT_VERSION_DIR: &'static str = "layout-v1";

/// A managed layout below a root directory.
#[derive(Debug)]
pub struct ManagedLayout {
    pub root: String,
}

/// The store of a project.
#[derive(Debug)]
pub struct ProjectDb {
    pub path: String,
    pub project_id: String,
}

/// Characters that stand for themselves in the name of a directory.
pub open spec fn plain(c: char) -> bool {
    ||| '0' <= c <= '9'
    ||| 'A' <= c <= 'Z'
    ||| 'a' <= c <= 'z'
    ||| c == '-'
}

/// A digit of a number in hexadecimal.
pub open spec fn hex(n: int) -> char {
    if n < 10 {
        (0x30 + n) as u8 as char
    } else {
        (0x57 + n) as u8 as char
    }
}

/// A character in the name of a directory: itself, or an underscore and its code in
/// six hexadecimal digits.
pub open spec fn encoded_char(c: char) -> Seq<char> {
    let n = c as int;
    if plain(c) {
        seq![c]
    } else {
        seq![
            '_',
            hex(n / 0x10_0000 % 16),
            hex(n / 0x1_0000 % 16),
            hex(n / 0x1000 % 16),
            hex(n / 0x100 % 16),
            hex(n / 0x10 % 16),
            hex(n % 16),
        ]
    }
}

/// The name of the directory of a project.
pub open spec fn encoded(project: Seq<char>) -> Seq<char>
    decreases project.len(),
{
    if project.len() == 0 {
        Seq::empty()
    } else {
        encoded(project.drop_last()) + encoded_char(project.last())
    }
}

/// A path below another.
pub open spec fn below(directory: Seq<char>, name: Seq<char>) -> Seq<char> {
    directory + "/"@ + name
}

/// The store of a project below the directory of the layout.
pub open spec fn project_path(project: Seq<char>) -> Seq<char> {
    "projects/"@ + encoded(project) + "/mem.db"@
}

/// The store of a share below the directory of the layout: that of its project, or
/// the user store.
pub open spec fn relative_path(project: Option<Seq<char>>) -> Seq<char> {
    match project {
        Some(project) => project_path(project),
        None => "user.db"@,
    }
}

/// Why a project has no store.
pub open spec fn project_refusal(project: Seq<char>) -> Option<Seq<char>> {
    if text::blank(project) {
        Some("project identifier cannot be empty"@)
    } else {
        None
    }
}

fn hex_char(n: u32) -> (r: char)
    requires
        n < 16,
    ensures
        r == hex(n as int),
{
    if n < 10 {
        (48u8 + n as u8) as char
    } else {
        (87u8 + n as u8) as char
    }
}

/// Appends a character in the form it has in the name of a directory.
fn push_encoded(out: &mut String, c: char)
    ensures
        final(out)@ == old(out)@ + encoded_char(c),
{
    let ghost before = out@;
    if ('0' <= c && c <= '9') || ('A' <= c && c <= 'Z') || ('a' <= c && c <= 'z') || c == '-' {
        out.push(c);
        assert(out@ =~= before + encoded_char(c));
    } else {
        let n: u32 = c as u32;
        let a: u32 = n / 0x10_0000 % 16;
        let b: u32 = n / 0x1_0000 % 16;
        let d: u32 = n / 0x1000 % 16;
        let e: u32 = n / 0x100 % 16;
        let f: u32 = n / 0x10 % 16;
        let g: u32 = n % 16;
        out.push('_');
        out.push(hex_char(a));
        out.push(hex_char(b));
        out.push(hex_char(d));
        out.push(hex_char(e));
        out.push(hex_char(f));
        out.push(hex_char(g));
        assert(encoded_char(c) =~= seq![
            '_',
            hex(a as int),
            hex(b as int),
            hex(d as int),
            hex(e as int),
            hex(f as int),
            hex(g as int),
        ]);
        assert(out@ =~= before + encoded_char(c));
    }
}

/// The name of the directory of a project.
pub fn encode_project(project: &str) -> (r: String)
    ensures
        r@ == encoded(project@),
{
    let chars: Vec<char> = to_chars(project);
    let mut out: String = String::new();
    let mut i: usize = 0;
    assert(chars@.take(0) =~= Seq::<char>::empty());
    assert(out@ =~= encoded(chars@.take(0)));
    while i < chars.len()
        invariant
            i <= chars@.len(),
            out@ == encoded(chars@.take(i as int)),
        decreases chars@.len() - i,
    {
        assert(chars@.take(i + 1).drop_last() =~= chars@.take(i as int));
        push_encoded(&mut out, chars[i]);
        i = i + 1;
    }
    assert(chars@.take(i as int) =~= chars@);
    out
}

impl ManagedLayout {
    /// The layout below a root directory.
    pub fn at(root: String) -> (r: ManagedLayout)
        ensures
            r.root@ == root@,
    {
        ManagedLayout { root }
    }

    /// The root directory.
    pub fn root(&self) -> (r: &str)
        ensures
            r@ == self.root@,
    {
        self.root.as_str()
    }

    /// The database that holds the rows of all projects.
    pub fn legacy_db(&self) -> (r: String)
        ensures
            r@ == below(self.root@, "memory.db"@),
    {
        concat3(self.root.as_str(), "/", "memory.db")
    }

    /// The directory of the layout.
    pub fn layout_dir(&self) -> (r: String)
        ensures
            r@ == below(self.root@, LAYOUT_VERSION_DIR@),
    {
        concat3(self.root.as_str(), "/", LAYOUT_VERSION_DIR)
    }

    /// The directory of the stores of projects.
    pub fn projects_dir(&self) -> (r: String)
        ensures
            r@ == below(below(self.root@, LAYOUT_VERSION_DIR@), "projects"@),
    {
        let dir: String = self.layout_dir();
        concat3(dir.as_str(), "/", "projects")
    }

    /// The user store.
    pub fn user_db(&self) -> (r: String)
        ensures
            r@ == below(below(self.root@, LAYOUT_VERSION_DIR@), relative_path(None)),
    {
        let dir: String = self.layout_dir();
        concat3(dir.as_str(), "/", "user.db")
    }

    /// The store of a project.
    pub fn project_db(&self, project_id: &str) -> (r: Result<ProjectDb, Error>)
        ensures
            match project_refusal(project_id@) {
                Some(message) => r matches Err(e) && e@ == message,
                None => r matches Ok(db) && {
                    &&& db.project_id@ == project_id@
                    &&& db.path@ == below(
                        below(self.root@, LAYOUT_VERSION_DIR@),
                        relative_path(Some(project_id@)),
                    )
                },
            },
    {
        if is_blank(project_id) {
            return Err(Error::new("project identifier cannot be empty"));
        }
        let dir: String = self.layout_dir();
        let path: String = store_path(dir.as_str(), &Some(project_id.to_owned()));
        Ok(ProjectDb { path, project_id: project_id.to_owned() })
    }
}

/// The store of a share below a directory that has the form of a layout.
fn store_path(directory: &str, project_id: &Option<String>) -> (r: String)
    ensures
        r@ == below(directory@, relative_path(crate::model::text_of(*project_id))),
{
    let relative: String = match project_id {
        Some(project) => {
            let name: String = encode_project(project.as_str());
            concat3("projects/", name.as_str(), "/mem.db")
        },
        None => "user.db".to_owned(),
    };
    concat3(directory, "/", relative.as_str())
}

/// Where the store of a share lies inside a staging directory: at the same path below
/// it that it will have below the directory of the layout.
pub fn staging_store_path(staging: &str, project_id: &Option<String>) -> (r: Result<String, Error>)
    ensures
        error::outcome(r) == (match project_id {
            Some(project) => match project_refusal(project@) {
                Some(message) => Err::<Seq<char>, Seq<char>>(message),
                None => Ok(below(staging@, relative_path(Some(project@)))),
            },
            None => Ok(below(staging@, relative_path(None))),
        }),
{
    if let Some(project) = project_id {
        if is_blank(project.as_str()) {
            return Err(Error::new("project identifier cannot be empty"));
        }
    }
    Ok(store_path(staging, project_id))
}

/// The directory that a layout is staged in, given a fresh identifier.
pub fn staging_dir(layout: &ManagedLayout, id: &str) -> (r: String)
    ensures
        r@ == below(layout.root@, ".layout-v1.tmp-"@ + id@),
{
    let name: String = concat2(".layout-v1.tmp-", id);
    concat3(layout.root.as_str(), "/", name.as_str())
}

/// Tells whether the name of a directory is that of a staging directory.
pub fn is_staging_name(name: &str) -> (r: bool)
    ensures
        r == (".layout-v1.tmp-"@.is_prefix_of(name@)),
{
    let prefix: Vec<char> = to_chars(".layout-v1.tmp-");
    let chars: Vec<char> = to_chars(name);
    let mut i: usize = 0;
    while i < prefix.len()
        invariant
            i <= prefix@.len(),
            i <= chars@.len(),
            prefix@ == ".layout-v1.tmp-"@,
            chars@ == name@,
            forall|k: int| 0 <= k < i ==> prefix@[k] == chars@[k],
        decreases prefix@.len() - i,
    {
        if i >= chars.len() || prefix[i] != chars[i] {
            return false;
        }
        i = i + 1;
    }
    assert(prefix@ =~= chars@.subrange(0, prefix@.len() as int));
    true
}

/// An underscore in the name of a directory begins an escape that lies within it, and
/// every character of the name is plain or an underscore.
proof fn lemma_encoded_shape(project: Seq<char>)
    ensures
        forall|i: int|
            0 <= i < encoded(project).len() ==> plain(#[trigger] encoded(project)[i])
                || encoded(project)[i] == '_',
        forall|i: int|
            0 <= i < encoded(project).len() && #[trigger] encoded(project)[i] == '_' ==> i + 7
                <= encoded(project).len(),
    decreases project.len(),
{
    if project.len() > 0 {
        let front = encoded(project.drop_last());
        let last = encoded_char(project.last());
        lemma_encoded_shape(project.drop_last());
        let all = encoded(project);
        assert forall|i: int| 0 <= i < all.len() implies (plain(#[trigger] all[i]) || all[i]
            == '_') && (all[i] == '_' ==> i + 7 <= all.len()) by {
            if i < front.len() {
                assert(all[i] == front[i]);
            } else {
                assert(all[i] == last[i - front.len()]);
            }
        }
    }
}

/// The name of a project's directory is a single component of a path: it holds no
/// separator and no dot, and it is empty only for an empty identifier.
pub proof fn law_encoded_names_are_contained(project: Seq<char>)
    ensures
        forall|i: int|
            0 <= i < encoded(project).len() ==> #[trigger] encoded(project)[i] != '/'
                && encoded(project)[i] != '.' && encoded(project)[i] != '\\',
        project.len() > 0 ==> encoded(project).len() > 0,
{
    lemma_encoded_shape(project);
}

proof fn lemma_hex_injective(a: int, b: int)
    requires
        0 <= a < 16,
        0 <= b < 16,
        hex(a) == hex(b),
    ensures
        a == b,
{
}

proof fn lemma_digits(n: u32)
    requires
        n < 0x11_0000,
    ensures
        n == 0x10_0000 * (n / 0x10_0000 % 16) + 0x1_0000 * (n / 0x1_0000 % 16) + 0x1000 * (n
            / 0x1000 % 16) + 0x100 * (n / 0x100 % 16) + 0x10 * (n / 0x10 % 16) + n % 16,
{
    assert(n == 0x10_0000 * (n / 0x10_0000 % 16) + 0x1_0000 * (n / 0x1_0000 % 16) + 0x1000 * (n
        / 0x1000 % 16) + 0x100 * (n / 0x100 % 16) + 0x10 * (n / 0x10 % 16) + n % 16)
        by (bit_vector)
        requires
            n < 0x11_0000,
    ;
}

/// Escapes of different characters differ.
proof fn lemma_escape_injective(a: char, b: char)
    requires
        !plain(a),
        !plain(b),
        encoded_char(a) == encoded_char(b),
    ensures
        a == b,
{
    let x = encoded_char(a);
    let y = encoded_char(b);
    let n = a as int;
    let m = b as int;
    assert(x[1] == y[1] && x[2] == y[2] && x[3] == y[3] && x[4] == y[4] && x[5] == y[5] && x[6]
        == y[6]);
    lemma_hex_injective(n / 0x10_0000 % 16, m / 0x10_0000 % 16);
    lemma_hex_injective(n / 0x1_0000 % 16, m / 0x1_0000 % 16);
    lemma_hex_injective(n / 0x1000 % 16, m / 0x1000 % 16);
    lemma_hex_injective(n / 0x100 % 16, m / 0x100 % 16);
    lemma_hex_injective(n / 0x10 % 16, m / 0x10 % 16);
    lemma_hex_injective(n % 16, m % 16);
    lemma_digits(n as u32);
    lemma_digits(m as u32);
}

/// Different projects have different directories.
pub proof fn law_projects_have_distinct_names(a: Seq<char>, b: Seq<char>)
    requires
        encoded(a) == encoded(b),
    ensures
        a == b,
    decreases a.len(),
{
    let n = encoded(a);
    if a.len() > 0 && b.len() > 0 {
        let x = encoded_char(a.last());
        let y = encoded_char(b.last());
        let fa = encoded(a.drop_last());
        let fb = encoded(b.drop_last());
        lemma_encoded_shape(a.drop_last());
        lemma_encoded_shape(b.drop_last());
        if !plain(a.last()) {
            assert(n[n.len() - 7] == '_');
            if plain(b.last()) {
                assert(fb[n.len() - 7] == '_');
            }
        }
        if !plain(b.last()) {
            assert(n[n.len() - 7] == '_');
            if plain(a.last()) {
                assert(fa[n.len() - 7] == '_');
            }
        }
        assert(x.len() == y.len());
        assert(x =~= n.skip(n.len() - x.len()));
        assert(y =~= n.skip(n.len() - y.len()));
        assert(fa =~= n.take(n.len() - x.len()));
        assert(fb =~= n.take(n.len() - y.len()));
        if plain(a.last()) {
            assert(x[0] == y[0]);
        } else {
            lemma_escape_injective(a.last(), b.last());
        }
        law_projects_have_distinct_names(a.drop_last(), b.drop_last());
        assert(a =~= a.drop_last().push(a.last()));
        assert(b =~= b.drop_last().push(b.last()));
    } else {
        law_encoded_names_are_contained(a);
        law_encoded_names_are_contained(b);
        assert(a =~= b);
    }
}

} // verus!
