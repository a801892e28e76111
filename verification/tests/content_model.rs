use flownet::content::{DataType, Item, Meta, Node, Relations, Repo, User, UserQuery};
use flownet::error::Error;

struct Directory;

impl UserQuery for Directory {
    fn user(&self, username: String, hostname: String) -> Result<User, Error> {
        if username.is_empty() {
            Err(Error::NotFound)
        } else if hostname == "local" {
            Ok(User::Local(username))
        } else {
            Ok(User::Remote(username, hostname))
        }
    }
}

fn meta() -> Meta {
    Meta { created_at: 1, created_by: User::Anonymous, updated_at: None, updated_by: None }
}

fn node(id: i64, children: Vec<i64>) -> Node {
    Node {
        id,
        title: Some("title".to_string()),
        body: DataType::Markdown("# body".to_string()),
        meta: meta(),
        relations: Relations {
            children,
            forks: vec![],
            replies: vec![],
            in_reply_to: None,
            root_node: None,
        },
    }
}

#[test]
fn local_user_asks_for_host_local() {
    let d = Directory;
    let u = d.local_user("ann".to_string()).unwrap();
    assert_eq!(u.to_string(), "@ann:local");
    assert!(u.same_identity(&User::Local("ann".to_string())));
    assert!(matches!(d.local_user(String::new()), Err(Error::NotFound)));
    assert_eq!(d.user("ann".to_string(), "far.example".to_string()).unwrap().to_string(), "@ann:far.example");
}

#[test]
fn user_addresses() {
    assert_eq!(User::Anonymous.to_string(), "@anonymous:local");
    assert_eq!(User::Local("bob".to_string()).to_string(), "@bob:local");
    assert_eq!(
        User::Remote("eve".to_string(), "example.org".to_string()).to_string(),
        "@eve:example.org"
    );
}

#[test]
fn identities_are_compared_by_variant_name_and_host() {
    let local = User::Local("ann".to_string());
    let remote = User::Remote("ann".to_string(), "local".to_string());
    assert!(User::Anonymous.same_identity(&User::Anonymous));
    assert!(local.same_identity(&User::Local("ann".to_string())));
    assert!(!local.same_identity(&User::Local("bob".to_string())));
    // A remote user of a host called `local` is written like a local user
    // and is still another identity.
    assert_eq!(local.to_string(), remote.to_string());
    assert!(!local.same_identity(&remote));
    assert!(!remote.same_identity(&User::Remote("ann".to_string(), "b".to_string())));
    assert!(!User::Anonymous.same_identity(&User::Local("anonymous".to_string())));
}

#[test]
fn a_leaf_is_a_node_without_children() {
    assert!(node(1, vec![]).is_leaf());
    assert!(!node(1, vec![2]).is_leaf());
    let repo = Repo {
        id: 1,
        path: "/r".to_string(),
        title: "r".to_string(),
        description: String::new(),
        items: vec![Item::Node(node(1, vec![])), Item::Thread(node(2, vec![3, 4]))],
        meta: meta(),
    };
    let leaves: Vec<bool> = repo
        .items
        .iter()
        .map(|i| match i {
            Item::Node(n) | Item::Thread(n) => n.is_leaf(),
        })
        .collect();
    assert_eq!(leaves, vec![true, false]);
}

#[test]
fn every_failure_kind_has_its_own_text() {
    let all = [
        Error::NotFound,
        Error::UnknownPort,
        Error::AlreadyOpened,
        Error::Disconnected,
        Error::DuplicateName,
        Error::Deadlock,
        Error::ComponentFailure,
        Error::StoreError,
    ];
    assert_eq!(Error::NotFound.to_string(), "Resource not found");
    for (i, a) in all.iter().enumerate() {
        for (j, b) in all.iter().enumerate() {
            assert_eq!(a.to_string() == b.to_string(), i == j);
        }
    }
}
