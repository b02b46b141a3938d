//! View projection.
//!
//! A pure function from session state to a render tree. An empty roster
//! renders as a waiting placeholder and an empty log as a no-messages
//! placeholder; each message resolves its author against the current
//! roster by exact name, synthesizing a fallback profile when the author
//! is absent — without ever writing it back into the roster — and
//! renders as an image when its body ends in `.gif`, as plain text
//! otherwise.

use vstd::prelude::*;

use crate::chars::str_chars;
use crate::reducer::spec_profile_of;
use crate::reducer::profile_of;
use crate::reducer::ChatMessage;
use crate::reducer::ChatMessageView;
use crate::reducer::SessionState;
use crate::reducer::SessionView;
use crate::reducer::UserProfile;
use crate::reducer::UserProfileView;

verus! {

/// One rendered entry of the message area.
#[derive(Clone, Debug, PartialEq)]
pub struct RenderedMessage {
    /// The display profile of the author: the roster entry of the
    /// sender, or a synthesized fallback when the sender is absent.
    pub profile: UserProfile,
    pub body: String,
    /// Render the body as an image rather than plain text.
    pub is_image: bool,
}

/// Mathematical model of a [`RenderedMessage`].
pub struct RenderedMessageView {
    pub profile: UserProfileView,
    pub body: Seq<char>,
    pub is_image: bool,
}

impl View for RenderedMessage {
    type V = RenderedMessageView;

    open spec fn view(&self) -> RenderedMessageView {
        RenderedMessageView {
            profile: self.profile@,
            body: self.body@,
            is_image: self.is_image,
        }
    }
}

/// The sidebar: a waiting placeholder while the roster is empty.
#[derive(Clone, Debug, PartialEq)]
pub enum UsersPane {
    Waiting,
    Roster(Vec<UserProfile>),
}

/// Mathematical model of a [`UsersPane`].
pub enum UsersPaneView {
    Waiting,
    Roster(Seq<UserProfileView>),
}

impl View for UsersPane {
    type V = UsersPaneView;

    open spec fn view(&self) -> UsersPaneView {
        match self {
            UsersPane::Waiting => UsersPaneView::Waiting,
            UsersPane::Roster(us) => UsersPaneView::Roster(us.deep_view()),
        }
    }
}

/// The message area: a placeholder while the log is empty.
#[derive(Clone, Debug, PartialEq)]
pub enum MessagesPane {
    NoMessages,
    Log(Vec<RenderedMessage>),
}

/// Mathematical model of a [`MessagesPane`].
pub enum MessagesPaneView {
    NoMessages,
    Log(Seq<RenderedMessageView>),
}

impl DeepView for RenderedMessage {
    type V = RenderedMessageView;

    open spec fn deep_view(&self) -> RenderedMessageView {
        self.view()
    }
}

impl View for MessagesPane {
    type V = MessagesPaneView;

    open spec fn view(&self) -> MessagesPaneView {
        match self {
            MessagesPane::NoMessages => MessagesPaneView::NoMessages,
            MessagesPane::Log(ms) => MessagesPaneView::Log(ms.deep_view()),
        }
    }
}

/// The rendered tree of one chat view.
#[derive(Clone, Debug, PartialEq)]
pub struct Tree {
    pub users: UsersPane,
    pub messages: MessagesPane,
}

/// Mathematical model of a [`Tree`].
pub struct TreeView {
    pub users: UsersPaneView,
    pub messages: MessagesPaneView,
}

impl View for Tree {
    type V = TreeView;

    open spec fn view(&self) -> TreeView {
        TreeView { users: self.users@, messages: self.messages@ }
    }
}

/// The first roster entry whose name is exactly `name`, if any.
pub open spec fn spec_find_profile(users: Seq<UserProfileView>, name: Seq<char>) -> Option<
    UserProfileView,
>
    decreases users.len(),
{
    if users.len() == 0 {
        None
    } else if users[0].name == name {
        Some(users[0])
    } else {
        spec_find_profile(users.subrange(1, users.len() as int), name)
    }
}

/// The body names an animated image: it ends with the literal suffix
/// `.gif`.
pub open spec fn spec_is_gif(s: Seq<char>) -> bool {
    s.len() >= 4 && s.subrange(s.len() - 4, s.len() as int) == ".gif"@
}

/// How one log entry renders against the current roster.
pub open spec fn spec_render_message(users: Seq<UserProfileView>, m: ChatMessageView)
    -> RenderedMessageView {
    let p = match spec_find_profile(users, m.sender) {
        Some(p) => p,
        None => spec_profile_of(m.sender),
    };
    RenderedMessageView { profile: p, body: m.body, is_image: spec_is_gif(m.body) }
}

/// How a whole session state renders.
pub open spec fn spec_render(sv: SessionView) -> TreeView {
    TreeView {
        users: if sv.users.len() == 0 {
            UsersPaneView::Waiting
        } else {
            UsersPaneView::Roster(sv.users)
        },
        messages: if sv.messages.len() == 0 {
            MessagesPaneView::NoMessages
        } else {
            MessagesPaneView::Log(
                sv.messages.map_values(|m: ChatMessageView| spec_render_message(sv.users, m)),
            )
        },
    }
}

/// Rendering reads the roster and never writes it: the users pane of the
/// rendered tree is exactly the roster the state holds — of the same
/// length, entry for entry — also when some message's sender is absent
/// from it and a fallback profile is synthesized for that one rendering.
pub proof fn lemma_render_preserves_roster(sv: SessionView)
    ensures
        sv.users.len() == 0 ==> spec_render(sv).users == UsersPaneView::Waiting,
        sv.users.len() > 0 ==> spec_render(sv).users == UsersPaneView::Roster(sv.users),
{
}

fn clone_profile(u: &UserProfile) -> (r: UserProfile)
    ensures
        r@ == u@,
{
    UserProfile { name: u.name.clone(), avatar: u.avatar.clone() }
}

/// The first roster entry named exactly `name`, if any.
fn find_profile(users: &Vec<UserProfile>, i: usize, name: &String) -> (r: Option<UserProfile>)
    requires
        i <= users@.len(),
    ensures
        ({
            let sp = spec_find_profile(
                users.deep_view().subrange(i as int, users.deep_view().len() as int),
                name@,
            );
            match r {
                Some(p) => sp == Some(p@),
                None => sp is None,
            }
        }),
    decreases users@.len() - i,
{
    if i == users.len() {
        proof {
            assert(users.deep_view().subrange(i as int, users.deep_view().len() as int)
                =~= Seq::<UserProfileView>::empty());
        }
        None
    } else {
        proof {
            let dv = users.deep_view();
            let sub = dv.subrange(i as int, dv.len() as int);
            assert(sub[0] == users@[i as int]@);
            assert(sub.subrange(1, sub.len() as int) =~= dv.subrange(i + 1 as int, dv.len() as int));
        }
        if users[i].name == *name {
            Some(clone_profile(&users[i]))
        } else {
            find_profile(users, i + 1, name)
        }
    }
}

/// The body ends with the literal suffix `.gif`.
fn is_gif(s: &String) -> (r: bool)
    ensures
        r == spec_is_gif(s@),
{
    let v = str_chars(s.as_str());
    let n = v.len();
    proof {
        reveal_strlit(".gif");
    }
    if n < 4 {
        return false;
    }
    let r = v[n - 4] == '.' && v[n - 3] == 'g' && v[n - 2] == 'i' && v[n - 1] == 'f';
    proof {
        if r {
            assert(s@.subrange(n - 4, n as int) =~= ".gif"@);
        } else {
            if spec_is_gif(s@) {
                assert(s@.subrange(n - 4, n as int)[0] == '.');
                assert(s@.subrange(n - 4, n as int)[1] == 'g');
                assert(s@.subrange(n - 4, n as int)[2] == 'i');
                assert(s@.subrange(n - 4, n as int)[3] == 'f');
                assert(false);
            }
        }
    }
    r
}

/// Projects a session state into its rendered tree. Takes the state by
/// shared reference: rendering can never mutate the roster or the log.
pub fn render(st: &SessionState) -> (t: Tree)
    ensures
        t@ == spec_render(st@),
{
    let users_pane: UsersPane = if st.users.len() == 0 {
        proof {
            assert(st@.users.len() == 0);
        }
        UsersPane::Waiting
    } else {
        let mut us: Vec<UserProfile> = Vec::new();
        let mut i: usize = 0;
        while i < st.users.len()
            invariant
                i <= st.users@.len(),
                us@.len() == i,
                forall|t: int| 0 <= t < i ==> us@[t]@ == st.users@[t]@,
            decreases st.users@.len() - i,
        {
            us.push(clone_profile(&st.users[i]));
            i = i + 1;
        }
        proof {
            assert(us.deep_view() =~~= st@.users);
        }
        UsersPane::Roster(us)
    };
    let messages_pane: MessagesPane = if st.messages.len() == 0 {
        proof {
            assert(st@.messages.len() == 0);
        }
        MessagesPane::NoMessages
    } else {
        let mut rs: Vec<RenderedMessage> = Vec::new();
        let mut i: usize = 0;
        while i < st.messages.len()
            invariant
                i <= st.messages@.len(),
                rs@.len() == i,
                forall|t: int|
                    0 <= t < i ==> rs@[t]@ == spec_render_message(st@.users, st.messages@[t]@),
            decreases st.messages@.len() - i,
        {
            let m = &st.messages[i];
            let p: UserProfile = match find_profile(&st.users, 0, &m.sender) {
                Some(p) => p,
                None => profile_of(m.sender.as_str()),
            };
            proof {
                assert(st.users.deep_view().subrange(0, st.users.deep_view().len() as int)
                    =~= st@.users);
            }
            let img = is_gif(&m.body);
            rs.push(RenderedMessage { profile: p, body: m.body.clone(), is_image: img });
            i = i + 1;
        }
        proof {
            assert(rs.deep_view() =~~= st@.messages.map_values(
                |m: ChatMessageView| spec_render_message(st@.users, m),
            ));
        }
        MessagesPane::Log(rs)
    };
    let t = Tree { users: users_pane, messages: messages_pane };
    t
}

} // verus!
