//! The content data model: users, nodes and repositories, and the interfaces
//! through which a store answers questions about them.

use vstd::prelude::*;
use vstd::string::*;
use crate::error::Error;

verus! {

pub type UserName = String;

pub type Hostname = String;

pub type NodeId = i64;

pub type RepoId = i64;

/// Who did something: nobody in particular, a user of this host, or a user
/// of another host.
#[derive(Debug)]
pub enum User {
    Anonymous,
    Local(UserName),
    Remote(UserName, Hostname),
}

/// A user as plain values.
pub enum UserView {
    Anonymous,
    Local(Seq<char>),
    Remote(Seq<char>, Seq<char>),
}

impl View for User {
    type V = UserView;

    open spec fn view(&self) -> UserView {
        match self {
            User::Anonymous => UserView::Anonymous,
            User::Local(name) => UserView::Local(name@),
            User::Remote(name, host) => UserView::Remote(name@, host@),
        }
    }
}

/// The address form of a user: `@name:host`, with `local` as the host of
/// this host's users and `anonymous` as the name of nobody in particular.
pub open spec fn address_of(u: UserView) -> Seq<char> {
    match u {
        UserView::Anonymous => "@anonymous:local"@,
        UserView::Local(name) => "@"@ + name + ":local"@,
        UserView::Remote(name, host) => "@"@ + name + ":"@ + host,
    }
}

impl User {
    /// Renders the user in address form.
    pub fn to_string(&self) -> (s: String)
        ensures
            s@ == address_of(self@),
    {
        match self {
            User::Anonymous => String::from_str("@anonymous:local"),
            User::Local(name) => {
                let mut s = String::from_str("@");
                s.append(name.as_str());
                s.append(":local");
                s
            },
            User::Remote(name, host) => {
                let mut s = String::from_str("@");
                s.append(name.as_str());
                s.append(":");
                s.append(host.as_str());
                s
            },
        }
    }

    /// Tells whether two values name the same identity: the same variant
    /// with the same name and host.
    pub fn same_identity(&self, other: &User) -> (same: bool)
        ensures
            same == (self@ == other@),
    {
        match (self, other) {
            (User::Anonymous, User::Anonymous) => true,
            (User::Local(a), User::Local(b)) => *a == *b,
            (User::Remote(a, g), User::Remote(b, h)) => *a == *b && *g == *h,
            _ => false,
        }
    }
}

/// The body of a node.
#[derive(Debug)]
pub enum DataType {
    Empty,
    Text(String),
    Markdown(String),
    Binary(Vec<u8>),
}

/// Who created and last changed something, and when.
#[derive(Debug)]
pub struct Meta {
    pub created_at: i64,
    pub created_by: User,
    pub updated_at: Option<i64>,
    pub updated_by: Option<User>,
}

/// The nodes that a node is related to.
#[derive(Debug)]
pub struct Relations {
    pub children: Vec<NodeId>,
    pub forks: Vec<NodeId>,
    pub replies: Vec<NodeId>,
    pub in_reply_to: Option<NodeId>,
    pub root_node: Option<NodeId>,
}

/// One piece of content in the graph.
#[derive(Debug)]
pub struct Node {
    pub id: NodeId,
    pub title: Option<String>,
    pub body: DataType,
    pub meta: Meta,
    pub relations: Relations,
}

impl Node {
    /// A leaf is a node without children.
    pub fn is_leaf(&self) -> (leaf: bool)
        ensures
            leaf == (self.relations.children@.len() == 0),
    {
        self.relations.children.len() == 0
    }
}

/// What a repository holds: a single node, or a node that heads a thread.
#[derive(Debug)]
pub enum Item {
    Node(Node),
    Thread(Node),
}

/// A named collection of items.
#[derive(Debug)]
pub struct Repo {
    pub id: RepoId,
    pub path: String,
    pub title: String,
    pub description: String,
    pub items: Vec<Item>,
    pub meta: Meta,
}

/// Questions about nodes.
pub trait NodeQuery {
    fn node(&self, node_id: NodeId) -> Result<Node, Error>;

    fn children(&self, node_id: NodeId) -> Result<Vec<Node>, Error>;

    fn forks(&self, node_id: NodeId) -> Result<Vec<Node>, Error>;

    fn forked_from(&self, node_id: NodeId) -> Result<Node, Error>;

    fn replies(&self, node_id: NodeId) -> Result<Vec<Node>, Error>;

    fn in_reply_to(&self, node_id: NodeId) -> Result<Node, Error>;
}

/// Changes to nodes.
pub trait NodeCommand {
    fn create_node(&mut self, node: Node) -> Result<NodeId, Error>;

    fn create_fork(&mut self, source_node_id: NodeId, quoted_data: DataType) -> Result<
        NodeId,
        Error,
    >;

    fn create_child(&mut self, parent_node_id: NodeId, child: Node) -> Result<NodeId, Error>;
}

/// Questions about repositories.
pub trait RepoQuery {
    fn repo(&self, repo_id: RepoId) -> Result<Repo, Error>;
}

/// Changes to repositories.
pub trait RepoCommand {
    fn create_repo(&mut self, repo: Repo) -> Result<RepoId, Error>;

    fn create_item(&mut self, repo_id: RepoId, item: Item) -> Result<NodeId, Error>;
}

/// Questions about users.
pub trait UserQuery {
    fn user(&self, username: UserName, hostname: Hostname) -> Result<User, Error>;

    /// Asks for a user of this host: the answer is an answer of `user` to
    /// the same name with a host written `local`, what a call of `user`
    /// with these returned, or may return.
    fn local_user(&self, username: UserName) -> (answer: Result<User, Error>)
        ensures
            exists|hostname: Hostname|
                hostname@ == "local"@ && #[trigger] call_ensures(
                    Self::user,
                    (self, username, hostname),
                    answer,
                ),
    {
        let host = String::from_str("local");
        let answer = self.user(username, host);
        assert(host@ == "local"@ && call_ensures(Self::user, (self, username, host), answer));
        answer
    }
}

/// Changes to users.
pub trait UserCommand {
    fn create_user(&mut self, user: User) -> Result<UserName, Error>;
}

} // verus!
