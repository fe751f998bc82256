//! The file tree of the workspace and the checks on file requests.
//!
//! Reading and writing files is left to the caller. This module decides what
//! a request may do, given what the caller found on disk, and shapes the tree
//! that a listing answers with.

use vstd::prelude::*;
use vstd::string::{StrSliceExecFns, StringExecFns};
use vstd::utf8::encode_utf8;

verus! {

/// The directory every path of a request is taken relative to.
pub const WORKSPACE_DIR: &'static str = "./workspace";

/// One file or directory of the workspace, with what lies below it.
#[derive(Debug, PartialEq, Eq)]
pub struct FileNode {
    pub name: String,
    pub path: String,
    pub is_dir: bool,
    pub children: Option<Vec<FileNode>>,
}

/// The path a request names, if it names one.
#[derive(Debug, PartialEq, Eq)]
pub struct PathQuery {
    pub path: Option<String>,
}

/// The text a file is to hold.
#[derive(Debug, PartialEq, Eq)]
pub struct FileContent {
    pub content: String,
}

/// Why a file request was turned down.
#[derive(Debug, PartialEq, Eq)]
pub enum AppError {
    NotFound,
    BadRequest(String),
    InternalError(String),
}

/// What is to be created for a path that does not exist yet.
#[derive(Clone, Copy, Debug, PartialEq, Eq, Structural)]
pub enum Creation {
    /// The path as a directory, with every directory above it.
    Directory,
    /// An empty file, with every directory above it.
    EmptyFile,
}

/// What is to be removed for a path that exists.
#[derive(Clone, Copy, Debug, PartialEq, Eq, Structural)]
pub enum Removal {
    /// The directory and all that lies below it.
    DirectoryTree,
    /// The one file.
    File,
}

/// Status of a request that was carried out.
pub const STATUS_OK: u16 = 200;

/// Status of a request that created something.
pub const STATUS_CREATED: u16 = 201;

/// Status of a request that was wrong in itself.
pub const STATUS_BAD_REQUEST: u16 = 400;

/// Status of a request for something that does not exist.
pub const STATUS_NOT_FOUND: u16 = 404;

/// Status of a request that failed on the server's side.
pub const STATUS_INTERNAL_SERVER_ERROR: u16 = 500;

impl AppError {
    /// Whether the error is a bad request that says `text`.
    pub open spec fn is_bad_request(&self, text: Seq<char>) -> bool {
        match self {
            AppError::BadRequest(message) => message@ == text,
            _ => false,
        }
    }

    /// The error for an operation on disk that failed with `message`.
    pub fn from_io(message: String) -> (error: AppError)
        ensures
            error == AppError::InternalError(message),
    {
        AppError::InternalError(message)
    }

    /// The status the error is answered with.
    pub open spec fn spec_status(&self) -> u16 {
        match self {
            AppError::NotFound => STATUS_NOT_FOUND,
            AppError::BadRequest(_) => STATUS_BAD_REQUEST,
            AppError::InternalError(_) => STATUS_INTERNAL_SERVER_ERROR,
        }
    }

    /// The text the error is answered with.
    pub open spec fn spec_message(&self) -> Seq<char> {
        match self {
            AppError::NotFound => "Not found"@,
            AppError::BadRequest(message) => message@,
            AppError::InternalError(message) => message@,
        }
    }

    /// The status and the text the error is answered with.
    pub fn into_parts(self) -> (parts: (u16, String))
        ensures
            parts.0 == self.spec_status(),
            parts.1@ == self.spec_message(),
    {
        match self {
            AppError::NotFound => (STATUS_NOT_FOUND, String::from_str("Not found")),
            AppError::BadRequest(message) => (STATUS_BAD_REQUEST, message),
            AppError::InternalError(message) => (STATUS_INTERNAL_SERVER_ERROR, message),
        }
    }
}

impl PathQuery {
    /// The directory a listing starts at: the path of the request, or the
    /// workspace itself where the request names none.
    pub fn listing_target(&self) -> (target: &str)
        ensures
            target@ == (match self.path {
                Some(path) => path@,
                None => Seq::<char>::empty(),
            }),
    {
        match &self.path {
            Some(path) => path.as_str(),
            None => {
                proof {
                    reveal_strlit("");
                }
                ""
            },
        }
    }

    /// The path of a request that cannot do without one.
    pub fn required_path(self) -> (path: Result<String, AppError>)
        ensures
            match path {
                Ok(named) => self.path == Some(named),
                Err(error) => self.path is None && error.is_bad_request(
                    "Missing path parameter"@,
                ),
            },
    {
        match self.path {
            Some(path) => Ok(path),
            None => Err(AppError::BadRequest(String::from_str("Missing path parameter"))),
        }
    }
}

/// Checks that what a path leads to can be read as a file.
///
/// A path that leads nowhere is not found; one that leads to anything but a
/// file is a bad request.
pub fn check_readable(exists: bool, is_file: bool) -> (checked: Result<(), AppError>)
    ensures
        checked is Ok <==> exists && is_file,
        !exists ==> checked == Err::<(), AppError>(AppError::NotFound),
        exists && !is_file ==> checked is Err && checked->Err_0.is_bad_request(
            "Path is not a file"@,
        ),
{
    if !exists {
        Err(AppError::NotFound)
    } else if !is_file {
        Err(AppError::BadRequest(String::from_str("Path is not a file")))
    } else {
        Ok(())
    }
}

/// Whether a path asks for a directory: it does when it ends in a slash.
pub open spec fn names_directory(path: Seq<char>) -> bool {
    path.len() > 0 && path.last() == '/'
}

/// Decides what to create for `path`, given whether it exists already.
///
/// Nothing is created over what exists.
pub fn plan_creation(path: &str, exists: bool) -> (plan: Result<Creation, AppError>)
    ensures
        plan is Ok <==> !exists,
        exists ==> plan is Err && plan->Err_0.is_bad_request(
            "File or directory already exists"@,
        ),
        !exists ==> plan == Ok::<Creation, AppError>(
            if names_directory(path@) {
                Creation::Directory
            } else {
                Creation::EmptyFile
            },
        ),
{
    if exists {
        return Err(AppError::BadRequest(String::from_str("File or directory already exists")));
    }
    let length: usize = path.unicode_len();
    if length > 0 && path.get_char(length - 1) == '/' {
        Ok(Creation::Directory)
    } else {
        Ok(Creation::EmptyFile)
    }
}

/// Decides what to remove, given what the path leads to.
pub fn plan_removal(exists: bool, is_dir: bool) -> (plan: Result<Removal, AppError>)
    ensures
        plan == (if !exists {
            Err::<Removal, AppError>(AppError::NotFound)
        } else if is_dir {
            Ok(Removal::DirectoryTree)
        } else {
            Ok(Removal::File)
        }),
{
    if !exists {
        Err(AppError::NotFound)
    } else if is_dir {
        Ok(Removal::DirectoryTree)
    } else {
        Ok(Removal::File)
    }
}

/// Whether a name is hidden: it is when it begins with a dot.
pub open spec fn is_hidden(file_name: Seq<char>) -> bool {
    file_name.len() > 0 && file_name.first() == '.'
}

/// Whether a directory entry is left out of the tree. Hidden entries are; an
/// entry whose name is no text is not.
pub fn skips_entry(file_name: Option<&str>) -> (skipped: bool)
    ensures
        skipped == (file_name matches Some(name) && is_hidden(name@)),
{
    match file_name {
        Some(name) => !name.is_empty() && name.get_char(0) == '.',
        None => false,
    }
}

/// The name a node goes by: the last part of its path, or the name of the
/// workspace where the path has no last part that is text.
pub fn node_name(file_name: Option<&str>) -> (name: String)
    ensures
        name@ == (match file_name {
            Some(text) => text@,
            None => WORKSPACE_DIR@,
        }),
{
    match file_name {
        Some(text) => String::from_str(text),
        None => String::from_str(WORKSPACE_DIR),
    }
}

/// The path of an entry relative to the root of the listing.
pub open spec fn joined(relative_path: Seq<char>, entry_name: Seq<char>) -> Seq<char> {
    if relative_path.len() == 0 {
        entry_name
    } else {
        relative_path + seq!['/'] + entry_name
    }
}

/// The path of the entry `entry_name` of the directory at `relative_path`.
pub fn child_relative_path(relative_path: &str, entry_name: &str) -> (path: String)
    ensures
        path@ == joined(relative_path@, entry_name@),
{
    if relative_path.is_empty() {
        String::from_str(entry_name)
    } else {
        let mut path = String::from_str(relative_path);
        proof {
            reveal_strlit("/");
        }
        path.append("/");
        path.append(entry_name);
        assert("/"@ =~= seq!['/']);
        path
    }
}

/// Whether the bytes `a` come before the bytes `b` in the order of a
/// dictionary: they do when `a` has the smaller byte at the first place where
/// the two differ, or ends first, `b` going on.
pub open spec fn bytes_precede(a: Seq<u8>, b: Seq<u8>) -> bool
    decreases a.len(),
{
    if b.len() == 0 {
        false
    } else if a.len() == 0 {
        true
    } else if a.first() != b.first() {
        a.first() < b.first()
    } else {
        bytes_precede(a.drop_first(), b.drop_first())
    }
}

/// Whether node `a` is listed before node `b`: directories before files, and
/// among directories as among files by name, the names taken as the bytes of
/// their UTF-8 encoding.
pub open spec fn listed_before(a: FileNode, b: FileNode) -> bool {
    if a.is_dir == b.is_dir {
        bytes_precede(encode_utf8(a.name@), encode_utf8(b.name@))
    } else {
        a.is_dir
    }
}

/// The listing `listed`, which is in order, with `node` put in its place:
/// behind every node that is listed before it and ahead of the rest.
pub open spec fn placed(node: FileNode, listed: Seq<FileNode>) -> Seq<FileNode>
    decreases listed.len(),
{
    if listed.len() > 0 && listed_before(listed.first(), node) {
        seq![listed.first()] + placed(node, listed.drop_first())
    } else {
        seq![node] + listed
    }
}

/// The nodes of `children` in the order of a listing. Nodes of which neither
/// is listed before the other stay in the order they came in.
pub open spec fn in_listing_order(children: Seq<FileNode>) -> Seq<FileNode>
    decreases children.len(),
{
    if children.len() == 0 {
        Seq::empty()
    } else {
        placed(children.first(), in_listing_order(children.drop_first()))
    }
}

/// Whether two nodes have the same place in a listing: neither is listed
/// before the other.
pub open spec fn listed_alike(a: FileNode, b: FileNode) -> bool {
    !listed_before(a, b) && !listed_before(b, a)
}

/// What picks out the nodes that have the same place in a listing as `node`.
pub open spec fn alike(node: FileNode) -> spec_fn(FileNode) -> bool {
    |other: FileNode| listed_alike(other, node)
}

/// Whether `listed` is in the order of a listing: no node is listed before
/// one that stands ahead of it.
pub open spec fn is_in_listing_order(listed: Seq<FileNode>) -> bool {
    forall|i: int, j: int| 0 <= i < j < listed.len() ==> !listed_before(listed[j], listed[i])
}

fn name_precedes(a: &str, b: &str) -> (before: bool)
    ensures
        before == bytes_precede(encode_utf8(a@), encode_utf8(b@)),
{
    let x = a.as_bytes();
    let y = b.as_bytes();
    let mut i: usize = 0;
    assert(x@.skip(0) =~= x@ && y@.skip(0) =~= y@);
    while i < x.len() && i < y.len()
        invariant
            i <= x.len(),
            i <= y.len(),
            x@ == encode_utf8(a@),
            y@ == encode_utf8(b@),
            bytes_precede(x@, y@) == bytes_precede(x@.skip(i as int), y@.skip(i as int)),
        decreases x.len() - i,
    {
        if x[i] != y[i] {
            assert(x@.skip(i as int).first() == x@[i as int]);
            assert(y@.skip(i as int).first() == y@[i as int]);
            return x[i] < y[i];
        }
        assert(x@.skip(i as int).drop_first() =~= x@.skip(i + 1));
        assert(y@.skip(i as int).drop_first() =~= y@.skip(i + 1));
        i += 1;
    }
    i < y.len()
}

/// Whether node `a` is listed before node `b`.
pub fn lists_before(a: &FileNode, b: &FileNode) -> (before: bool)
    ensures
        before == listed_before(*a, *b),
{
    if a.is_dir == b.is_dir {
        name_precedes(a.name.as_str(), b.name.as_str())
    } else {
        a.is_dir
    }
}

/// Puts the children of a directory in the order of a listing.
pub fn sort_children(children: Vec<FileNode>) -> (listed: Vec<FileNode>)
    ensures
        listed@ == in_listing_order(children@),
{
    let ghost all = children@;
    let mut rest = children;
    let mut listed: Vec<FileNode> = Vec::new();
    assert(all.skip(all.len() as int) =~= Seq::<FileNode>::empty());
    while rest.len() > 0
        invariant
            rest@ == all.take(rest.len() as int),
            rest.len() <= all.len(),
            listed@ == in_listing_order(all.skip(rest.len() as int)),
        decreases rest.len(),
    {
        let ghost before: int = rest.len() as int;
        let node = rest.pop().unwrap();
        proof {
            assert(node == all[before - 1]);
            assert(rest@ =~= all.take(before - 1));
            assert(all.skip(before - 1).first() == node);
            assert(all.skip(before - 1).drop_first() =~= all.skip(before));
        }
        let mut at: usize = 0;
        assert(listed@.skip(0) =~= listed@);
        assert(listed@.take(0) + placed(node, listed@) =~= placed(node, listed@));
        while at < listed.len() && lists_before(&listed[at], &node)
            invariant
                at <= listed.len(),
                placed(node, listed@) == listed@.take(at as int) + placed(
                    node,
                    listed@.skip(at as int),
                ),
            decreases listed.len() - at,
        {
            proof {
                let tail = listed@.skip(at as int);
                assert(tail.first() == listed@[at as int]);
                assert(tail.drop_first() =~= listed@.skip(at + 1));
                assert(listed@.take(at as int) + (seq![tail.first()] + placed(
                    node,
                    tail.drop_first(),
                )) =~= listed@.take(at + 1) + placed(node, listed@.skip(at + 1)));
            }
            at += 1;
        }
        proof {
            let tail = listed@.skip(at as int);
            if at < listed.len() {
                assert(tail.first() == listed@[at as int]);
            }
            assert(listed@.take(at as int) + (seq![node] + tail) =~= listed@.insert(at as int, node));
        }
        listed.insert(at, node);
    }
    assert(all.skip(0) =~= all);
    listed
}

impl FileNode {
    /// The node of a file.
    pub fn file(name: String, path: String) -> (node: FileNode)
        ensures
            node.name == name,
            node.path == path,
            !node.is_dir,
            node.children is None,
    {
        FileNode { name, path, is_dir: false, children: None }
    }

    /// The node of a directory, its children put in the order of a listing.
    pub fn directory(name: String, path: String, children: Vec<FileNode>) -> (node: FileNode)
        ensures
            node.name == name,
            node.path == path,
            node.is_dir,
            node.children is Some,
            node.children->0@ == in_listing_order(children@),
    {
        FileNode { name, path, is_dir: true, children: Some(sort_children(children)) }
    }
}

proof fn lemma_bytes_order_one_way(a: Seq<u8>, b: Seq<u8>)
    ensures
        !(bytes_precede(a, b) && bytes_precede(b, a)),
    decreases a.len(),
{
    if a.len() > 0 && b.len() > 0 && a.first() == b.first() {
        lemma_bytes_order_one_way(a.drop_first(), b.drop_first());
    }
}

proof fn lemma_bytes_order_carries(a: Seq<u8>, b: Seq<u8>, c: Seq<u8>)
    requires
        !bytes_precede(b, a),
        !bytes_precede(c, b),
    ensures
        !bytes_precede(c, a),
    decreases a.len(),
{
    if a.len() > 0 && b.len() > 0 && c.len() > 0 && a.first() == b.first() && b.first()
        == c.first() {
        lemma_bytes_order_carries(a.drop_first(), b.drop_first(), c.drop_first());
    }
}

proof fn lemma_listing_order_carries(a: FileNode, b: FileNode, c: FileNode)
    requires
        !listed_before(b, a),
        !listed_before(c, b),
    ensures
        !listed_before(c, a),
{
    if a.is_dir == b.is_dir && b.is_dir == c.is_dir {
        lemma_bytes_order_carries(
            encode_utf8(a.name@),
            encode_utf8(b.name@),
            encode_utf8(c.name@),
        );
    }
}

proof fn lemma_placed_at(node: FileNode, listed: Seq<FileNode>) -> (at: int)
    ensures
        0 <= at <= listed.len(),
        placed(node, listed) == listed.insert(at, node),
        forall|i: int| 0 <= i < at ==> listed_before(#[trigger] listed[i], node),
        at < listed.len() ==> !listed_before(listed[at], node),
    decreases listed.len(),
{
    if listed.len() > 0 && listed_before(listed.first(), node) {
        let rest = listed.drop_first();
        let at: int = lemma_placed_at(node, rest);
        assert(seq![listed.first()] + rest.insert(at, node) =~= listed.insert(at + 1, node));
        assert forall|i: int| 0 <= i < at + 1 implies listed_before(#[trigger] listed[i], node) by {
            if i > 0 {
                assert(listed[i] == rest[i - 1]);
            }
        }
        if at + 1 < listed.len() {
            assert(listed[at + 1] == rest[at]);
        }
        at + 1
    } else {
        assert(seq![node] + listed =~= listed.insert(0, node));
        0
    }
}

proof fn lemma_placed_is_ordered(node: FileNode, listed: Seq<FileNode>)
    requires
        is_in_listing_order(listed),
    ensures
        is_in_listing_order(placed(node, listed)),
        placed(node, listed).to_multiset() == listed.to_multiset().insert(node),
        placed(node, listed).len() == listed.len() + 1,
{
    let at: int = lemma_placed_at(node, listed);
    let all = placed(node, listed);
    vstd::seq_lib::to_multiset_insert(listed, at, node);
    assert forall|i: int, j: int| 0 <= i < j < all.len() implies !listed_before(all[j], all[i]) by {
        if i == at {
            let first = listed[at];
            let later = all[j];
            assert(later == listed[j - 1]);
            if j - 1 > at {
                assert(!listed_before(later, first));
                lemma_listing_order_carries(node, first, later);
            }
        } else if j == at {
            assert(all[i] == listed[i]);
            lemma_bytes_order_one_way(encode_utf8(listed[i].name@), encode_utf8(node.name@));
        } else {
            let low: int = if i < at {
                i
            } else {
                i - 1
            };
            let high: int = if j < at {
                j
            } else {
                j - 1
            };
            assert(all[i] == listed[low] && all[j] == listed[high]);
        }
    }
}

/// What a listing keeps and what it puts right: it holds the nodes that were
/// given, each as often as it was given, and no node in it is listed before
/// one that stands ahead of it.
pub proof fn lemma_listing_order(children: Seq<FileNode>)
    ensures
        in_listing_order(children).to_multiset() == children.to_multiset(),
        in_listing_order(children).len() == children.len(),
        is_in_listing_order(in_listing_order(children)),
    decreases children.len(),
{
    broadcast use vstd::seq_lib::group_to_multiset_ensures;

    if children.len() > 0 {
        let rest = children.drop_first();
        lemma_listing_order(rest);
        lemma_placed_is_ordered(children.first(), in_listing_order(rest));
        assert(children =~= rest.insert(0, children.first()));
        vstd::seq_lib::to_multiset_insert(rest, 0, children.first());
    } else {
        assert(in_listing_order(children).to_multiset() =~= children.to_multiset());
    }
}

proof fn lemma_placed_is_stable(added: FileNode, listed: Seq<FileNode>, node: FileNode)
    ensures
        placed(added, listed).filter(alike(node)) == (seq![added] + listed).filter(alike(node)),
    decreases listed.len(),
{
    let pick = alike(node);
    if listed.len() > 0 && listed_before(listed.first(), added) {
        let first = listed.first();
        let rest = listed.drop_first();
        lemma_placed_is_stable(added, rest, node);
        assert(listed =~= seq![first] + rest);
        placed(added, rest).lemma_filter_prepend(first, pick);
        rest.lemma_filter_prepend(added, pick);
        rest.lemma_filter_prepend(first, pick);
        listed.lemma_filter_prepend(added, pick);
        if pick(first) && pick(added) {
            lemma_listing_order_carries(added, node, first);
        }
        let of_first = if pick(first) {
            seq![first]
        } else {
            Seq::empty()
        };
        let of_added = if pick(added) {
            seq![added]
        } else {
            Seq::empty()
        };
        assert(of_first + (of_added + rest.filter(pick)) =~= of_added + (of_first + rest.filter(
            pick,
        )));
    }
}

/// A listing is stable: nodes that have the same place in it stand in the
/// order they were given in. With [`lemma_listing_order`] this leaves one
/// listing only for any children.
pub proof fn lemma_listing_order_is_stable(children: Seq<FileNode>, node: FileNode)
    ensures
        in_listing_order(children).filter(alike(node)) == children.filter(alike(node)),
    decreases children.len(),
{
    if children.len() > 0 {
        let first = children.first();
        let rest = children.drop_first();
        lemma_listing_order_is_stable(rest, node);
        lemma_placed_is_stable(first, in_listing_order(rest), node);
        in_listing_order(rest).lemma_filter_prepend(first, alike(node));
        rest.lemma_filter_prepend(first, alike(node));
        assert(children =~= seq![first] + rest);
    }
}

} // verus!
