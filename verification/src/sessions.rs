//! Sessions: who may sign up, who may sign in, and the messages of those who did.

use crate::message::{Message, MessageView};
use crate::table::Table;
use crate::text::{
    from_chars, joined, lemma_pieces_after, lemma_pieces_of_joined, lemma_pieces_without, pieces,
    split, to_chars,
};
use crate::user::{password_hash, user_line, User, UserView};
use vstd::prelude::*;
use vstd::utf8::encode_utf8;

verus! {

/// Why a sign-up or a sign-in was turned down.
#[derive(Debug, Clone, Copy, PartialEq, Eq, Structural)]
pub enum SessionError {
    EmptyLogin,
    EmptyPassword,
    PasswordTooSmall,
    LoginExists,
    LoginNotFound,
    AuthFailed,
}

/// The shortest password that is accepted, in bytes of UTF-8.
pub const MIN_PASSWORD_LEN: usize = 6;

/// The session of a signed-in user: the messages.
pub struct ValidSession {
    messages: Vec<Message>,
}

impl View for ValidSession {
    type V = Seq<MessageView>;

    /// The messages, oldest first.
    closed spec fn view(&self) -> Seq<MessageView> {
        message_views(self.messages@)
    }
}

impl ValidSession {
    /// Adds the message `text` from `login`. Its number is the number of
    /// messages that came before it.
    pub fn add_message(&mut self, login: &str, text: &str)
        ensures
            final(self)@ == old(self)@.push(
                MessageView { id: old(self)@.len() as usize, login: login@, text: text@ },
            ),
    {
        let id = self.messages.len();
        self.messages.push(Message::new(id, String::from_str(login), String::from_str(text)));
        assert(self@ =~= old(self)@.push(
            MessageView { id: old(self)@.len() as usize, login: login@, text: text@ },
        ));
    }

    /// The messages from number `offset` on; none where `offset` is past the last.
    pub fn get_messages(&self, offset: usize) -> (messages: Vec<Message>)
        ensures
            message_views(messages@) == if offset < self@.len() {
                self@.skip(offset as int)
            } else {
                Seq::empty()
            },
    {
        let mut messages: Vec<Message> = Vec::new();
        if offset < self.messages.len() {
            let mut i: usize = offset;
            while i < self.messages.len()
                invariant
                    offset <= i <= self.messages.len(),
                    messages.len() == i - offset,
                    message_views(messages@) == self@.subrange(offset as int, i as int),
                decreases self.messages.len() - i,
            {
                let ghost before = messages@;
                messages.push(self.messages[i].clone());
                proof {
                    assert forall|j: int| 0 <= j < messages.len() implies message_views(messages@)[j]
                        == self@.subrange(offset as int, i + 1)[j] by {
                        if j < i - offset {
                            assert(message_views(before)[j] == self@.subrange(
                                offset as int,
                                i as int,
                            )[j]);
                        }
                    }
                    assert(message_views(messages@) =~= self@.subrange(offset as int, i + 1));
                }
                i += 1;
            }
            assert(self@.subrange(offset as int, self@.len() as int) =~= self@.skip(offset as int));
        } else {
            assert(message_views(messages@) =~= Seq::<MessageView>::empty());
        }
        messages
    }
}

/// What each of the messages holds.
pub open spec fn message_views(messages: Seq<Message>) -> Seq<MessageView> {
    Seq::new(messages.len(), |i: int| messages[i]@)
}

/// No two users have the same login.
pub open spec fn distinct_logins(users: Seq<UserView>) -> bool {
    forall|i: int, j: int| 0 <= i < j < users.len() ==> users[i].login != users[j].login
}

/// The login and the password's hash that a stored line holds: its first two
/// fields between semicolons. A line without a semicolon holds none.
pub open spec fn stored_user(line: Seq<char>) -> Option<UserView> {
    let fields = pieces(line, seq![';']);
    if fields.len() >= 2 {
        Some(UserView { login: fields[0], password_hash: fields[1] })
    } else {
        None
    }
}

/// The users after `user` has been entered: in place of the one with the same
/// login where there is one, else behind the last.
pub open spec fn with_user(users: Seq<UserView>, user: UserView) -> Seq<UserView> {
    if exists|i: int| 0 <= i < users.len() && users[i].login == user.login {
        let i = choose|i: int| 0 <= i < users.len() && users[i].login == user.login;
        users.update(i, user)
    } else {
        users.push(user)
    }
}

/// The users that stored lines hold, each line entered in turn.
pub open spec fn stored_users(lines: Seq<Seq<char>>) -> Seq<UserView>
    decreases lines.len(),
{
    if lines.len() == 0 {
        Seq::empty()
    } else {
        match stored_user(lines.last()) {
            Some(user) => with_user(stored_users(lines.drop_last()), user),
            None => stored_users(lines.drop_last()),
        }
    }
}

/// The text that stores the users: one line for each, ended by a line feed.
pub open spec fn storage_text(users: Seq<UserView>) -> Seq<char>
    decreases users.len(),
{
    if users.len() == 0 {
        Seq::empty()
    } else {
        storage_text(users.drop_last()) + user_line(users.last()) + seq!['\n']
    }
}

/// The lines that store the users, one for each.
pub open spec fn user_lines(users: Seq<UserView>) -> Seq<Seq<char>> {
    Seq::new(users.len(), |i: int| user_line(users[i]))
}

/// A user that a stored line can carry: neither the login nor the hash holds
/// a semicolon or a line feed.
pub open spec fn storable(user: UserView) -> bool {
    &&& !user.login.contains(';')
    &&& !user.login.contains('\n')
    &&& !user.password_hash.contains(';')
    &&& !user.password_hash.contains('\n')
}

/// The text that stores the users is their lines, each ended by a line feed.
pub proof fn lemma_storage_lines(users: Seq<UserView>)
    ensures
        storage_text(users) == joined(user_lines(users).push(Seq::empty()), seq!['\n']),
    decreases users.len(),
{
    let lines = user_lines(users);
    let ended = lines.push(Seq::empty());
    if users.len() == 0 {
        assert(ended.len() == 1);
        assert(joined(ended, seq!['\n']) == Seq::<char>::empty());
    } else {
        let before = users.drop_last();
        lemma_storage_lines(before);
        assert(ended.drop_last() =~= lines);
        assert(lines.drop_last() =~= user_lines(before));
        assert(lines.last() == user_line(users.last()));
        if users.len() == 1 {
            assert(user_lines(before).push(Seq::empty()).len() == 1);
            assert(joined(user_lines(before).push(Seq::empty()), seq!['\n']) == Seq::<char>::empty());
            assert(joined(lines, seq!['\n']) == lines[0]);
            assert(storage_text(users) =~= joined(ended, seq!['\n']));
        } else {
            let earlier = user_lines(before).push(Seq::empty());
            assert(earlier.drop_last() =~= user_lines(before));
            assert(joined(earlier, seq!['\n']) =~= joined(user_lines(before), seq!['\n']) + seq!['\n']);
            assert(joined(lines, seq!['\n']) =~= joined(user_lines(before), seq!['\n']) + seq!['\n']
                + lines.last());
            assert(storage_text(users) =~= joined(ended, seq!['\n']));
        }
    }
}

/// What a session stores, the next session reads back: the stored text,
/// split at its line feeds, gives the line of each user and nothing after the
/// last, and these lines hold the users again. This is for users with
/// distinct logins that a stored line can carry.
pub proof fn lemma_storage_round_trip(users: Seq<UserView>)
    requires
        distinct_logins(users),
        forall|i: int| 0 <= i < users.len() ==> storable(#[trigger] users[i]),
    ensures
        pieces(storage_text(users), seq!['\n']) == user_lines(users).push(Seq::empty()),
        forall|i: int|
            0 <= i < users.len() ==> stored_user(#[trigger] user_lines(users)[i]) == Some(users[i]),
        stored_users(user_lines(users)) == users,
    decreases users.len(),
{
    let lines = user_lines(users);
    let ended = lines.push(Seq::empty());
    assert forall|i: int| 0 <= i < users.len() implies stored_user(#[trigger] lines[i]) == Some(
        users[i],
    ) && !lines[i].contains('\n') by {
        let user = users[i];
        assert(storable(user));
        lemma_pieces_after(user.login, ';', user.password_hash);
        lemma_pieces_without(user.password_hash, ';');
        assert(seq![user.login] + seq![user.password_hash] =~= seq![user.login, user.password_hash]);
        if lines[i].contains('\n') {
            let k = choose|k: int| 0 <= k < lines[i].len() && lines[i][k] == '\n';
            if k < user.login.len() {
                assert(user.login[k] == '\n');
            } else if k > user.login.len() {
                assert(user.password_hash[k - user.login.len() - 1] == '\n');
            }
        }
    }
    assert forall|i: int| 0 <= i < ended.len() implies !(#[trigger] ended[i]).contains('\n') by {
        if i < lines.len() {
            assert(ended[i] == lines[i]);
        }
    }
    lemma_storage_lines(users);
    lemma_pieces_of_joined(ended, '\n');
    if users.len() > 0 {
        let before = users.drop_last();
        assert forall|i: int| 0 <= i < before.len() implies storable(#[trigger] before[i]) by {
            assert(before[i] == users[i]);
        }
        lemma_storage_round_trip(before);
        assert(lines.drop_last() =~= user_lines(before));
        assert(stored_user(lines.last()) == Some(users.last())) by {
            assert(lines.last() == lines[users.len() - 1]);
        }
        assert(with_user(before, users.last()) == before.push(users.last())) by {
            if exists|i: int| 0 <= i < before.len() && before[i].login == users.last().login {
                let i = choose|i: int| 0 <= i < before.len() && before[i].login == users.last().login;
                assert(users[i].login == users[users.len() - 1].login);
            }
        }
        assert(before.push(users.last()) =~= users);
    }
}

/// The user with this login, if there is one.
pub open spec fn user_named(users: Seq<UserView>, login: Seq<char>) -> Option<UserView> {
    if exists|i: int| 0 <= i < users.len() && users[i].login == login {
        Some(users[choose|i: int| 0 <= i < users.len() && users[i].login == login])
    } else {
        None
    }
}

/// Why a sign-up is turned down, if it is. The checks come in this order:
/// the login is not empty, nobody has it yet, the password is not empty, the
/// password is long enough.
pub open spec fn sign_up_error(users: Seq<UserView>, login: Seq<char>, password: Seq<char>) -> Option<
    SessionError,
> {
    if login.len() == 0 {
        Some(SessionError::EmptyLogin)
    } else if user_named(users, login) is Some {
        Some(SessionError::LoginExists)
    } else if password.len() == 0 {
        Some(SessionError::EmptyPassword)
    } else if encode_utf8(password).len() < MIN_PASSWORD_LEN {
        Some(SessionError::PasswordTooSmall)
    } else {
        None
    }
}

/// Why a sign-in is turned down, if it is. The checks come in this order:
/// the login is not empty, the password is not empty, somebody has the
/// login, the password is theirs.
pub open spec fn sign_in_error(users: Seq<UserView>, login: Seq<char>, password: Seq<char>) -> Option<
    SessionError,
> {
    if login.len() == 0 {
        Some(SessionError::EmptyLogin)
    } else if password.len() == 0 {
        Some(SessionError::EmptyPassword)
    } else {
        match user_named(users, login) {
            None => Some(SessionError::LoginNotFound),
            Some(user) => if user.password_hash == password_hash(password) {
                None
            } else {
                Some(SessionError::AuthFailed)
            },
        }
    }
}

/// Who has signed up can sign in: after a sign-up that was not turned down,
/// a sign-in with the same login and password is not turned down either,
/// and one with another password is turned down exactly where the two
/// passwords do not hash alike.
pub proof fn lemma_signed_up_can_sign_in(
    users: Seq<UserView>,
    login: Seq<char>,
    password: Seq<char>,
    other: Seq<char>,
)
    requires
        sign_up_error(users, login, password) is None,
        other.len() > 0,
    ensures
        ({
            let signed_up = users.push(UserView { login, password_hash: password_hash(password) });
            &&& sign_in_error(signed_up, login, password) is None
            &&& sign_in_error(signed_up, login, other) == if password_hash(other) == password_hash(
                password,
            ) {
                None
            } else {
                Some(SessionError::AuthFailed)
            }
        }),
{
    let user = UserView { login, password_hash: password_hash(password) };
    let signed_up = users.push(user);
    assert(signed_up[users.len() as int] == user);
    let k = choose|k: int| 0 <= k < signed_up.len() && signed_up[k].login == login;
    if k < users.len() {
        assert(users[k].login == login);
    }
    assert(user_named(signed_up, login) == Some(user));
}

/// The users, each kept under their own login.
struct Users {
    table: Table<User>,
}

impl Users {
    /// The users, in the order in which their logins first came.
    spec fn users(&self) -> Seq<UserView> {
        Seq::new(self.table.values().len(), |i: int| self.table.values()[i]@)
    }

    /// Each user is kept under their own login, and no login occurs twice.
    #[verifier::type_invariant]
    spec fn wf(&self) -> bool {
        &&& self.table.wf()
        &&& self.table.names().len() == self.table.values().len()
        &&& forall|i: int|
            0 <= i < self.table.names().len() ==> (#[trigger] self.table.values()[i])@.login
                == self.table.names()[i]
    }

    /// What holds of the logins: each user's login is the name that the user
    /// is kept under, no two are the same, and a user is found by login
    /// where the table holds the login.
    proof fn lemma_logins(&self)
        requires
            self.wf(),
        ensures
            self.users().len() == self.table.names().len(),
            forall|i: int|
                0 <= i < self.users().len() ==> (#[trigger] self.users()[i]).login
                    == self.table.names()[i],
            forall|i: int, j: int|
                0 <= i < j < self.users().len() ==> self.users()[i].login != self.users()[j].login,
            forall|login: Seq<char>|
                user_named(self.users(), login) is Some <==> self.table@.contains_key(login),
            forall|login: Seq<char>|
                self.table@.contains_key(login) ==> user_named(self.users(), login) == Some(
                    self.table@[login]@,
                ),
    {
        self.table.lemma_view();
        assert forall|i: int| 0 <= i < self.users().len() implies (#[trigger] self.users()[i]).login
            == self.table.names()[i] by {
            assert(self.table.values()[i]@.login == self.table.names()[i]);
        }
        assert forall|login: Seq<char>| self.table@.contains_key(login) implies user_named(
            self.users(),
            login,
        ) == Some(self.table@[login]@) by {
            let i = self.table.names().index_of(login);
            assert(self.table.names().contains(login));
            assert(self.users()[i].login == login);
            let k = choose|k: int| 0 <= k < self.users().len() && self.users()[k].login == login;
            assert(self.users()[k].login == self.table.names()[k]);
            assert(k == i);
            assert(self.table@[self.table.names()[i]] == self.table.values()[i]);
        }
        assert forall|login: Seq<char>| user_named(self.users(), login) is Some implies self.table@.contains_key(
            login,
        ) by {
            let k = choose|k: int| 0 <= k < self.users().len() && self.users()[k].login == login;
            assert(self.users()[k].login == self.table.names()[k]);
            assert(self.table.names().contains(login));
        }
    }

    /// No users.
    fn new() -> (users: Self)
        ensures
            users.users() == Seq::<UserView>::empty(),
    {
        let table: Table<User> = Table::new();
        let users = Users { table };
        assert(users.users() =~= Seq::<UserView>::empty());
        users
    }

    /// The number of users.
    fn len(&self) -> (n: usize)
        ensures
            n == self.users().len(),
    {
        self.table.len()
    }

    /// The user at place `i`.
    fn at(&self, i: usize) -> (user: &User)
        requires
            i < self.users().len(),
        ensures
            user@ == self.users()[i as int],
    {
        proof {
            use_type_invariant(self);
        }
        self.table.value_at(i)
    }

    /// The user with this login.
    fn get(&self, login: &str) -> (found: Option<&User>)
        ensures
            match found {
                Some(user) => user_named(self.users(), login@) == Some(user@),
                None => user_named(self.users(), login@) is None,
            },
    {
        proof {
            use_type_invariant(self);
            self.lemma_logins();
        }
        self.table.get(login)
    }

    /// Enters `user`, whose login is `login`, in place of the user who had
    /// that login.
    fn enter(&mut self, login: String, user: User)
        requires
            user@.login == login@,
        ensures
            final(self).users() == with_user(old(self).users(), user@),
    {
        proof {
            use_type_invariant(&*self);
            self.lemma_logins();
            self.table.lemma_view();
        }
        let mut table: Table<User> = Table::new();
        core::mem::swap(&mut table, &mut self.table);
        let ghost before = table;
        table.insert(login, user);
        proof {
            use_type_invariant(&table);
            table.lemma_view();
            before.lemma_view();
            if before@.contains_key(login@) {
                let i = before.names().index_of(login@);
                assert(before.names().contains(login@));
                assert forall|j: int| 0 <= j < table.names().len() implies (#[trigger] table.values()[j])
                    == before.values().update(i, user)[j] by {
                    assert(table@[table.names()[j]] == table.values()[j]);
                    assert(before@[before.names()[j]] == before.values()[j]);
                }
                assert(table.values() =~= before.values().update(i, user));
            } else {
                assert forall|j: int| 0 <= j < table.names().len() implies (#[trigger] table.values()[j])
                    == before.values().push(user)[j] by {
                    assert(table@[table.names()[j]] == table.values()[j]);
                    if j < before.names().len() {
                        assert(before@[before.names()[j]] == before.values()[j]);
                        assert(before.names().contains(before.names()[j]));
                    }
                }
                assert(table.values() =~= before.values().push(user));
            }
        }
        self.table = table;
        proof {
            let old_users = old(self).users();
            if before@.contains_key(login@) {
                let i = before.names().index_of(login@);
                let k = choose|k: int| 0 <= k < old_users.len() && old_users[k].login == user@.login;
                assert(old_users[i].login == login@);
                assert(old_users[k].login == before.names()[k]);
                assert(k == i);
                assert(self.users() =~= old_users.update(i, user@));
            } else {
                assert(self.users() =~= old_users.push(user@));
            }
        }
    }
}

/// The session of somebody who has not signed in: the users that exist, and
/// the shared session that signing up or signing in opens.
pub struct AnonymSession {
    users: Users,
    valid_session: ValidSession,
}

impl AnonymSession {
    /// The users, in the order in which their logins first came.
    pub closed spec fn users(&self) -> Seq<UserView> {
        self.users.users()
    }

    /// The messages of the session that signing up or signing in opens.
    pub closed spec fn messages(&self) -> Seq<MessageView> {
        self.valid_session@
    }

    /// The session over the users that the stored lines hold, with no
    /// messages yet. There is none where a line has no semicolon.
    pub fn new(lines: &Vec<String>) -> (outcome: Option<AnonymSession>)
        ensures
            match outcome {
                Some(session) => {
                    &&& forall|i: int| 0 <= i < lines.len() ==> stored_user(#[trigger] lines[i]@) is Some
                    &&& session.users() == stored_users(lines.deep_view())
                    &&& distinct_logins(session.users())
                    &&& session.messages() == Seq::<MessageView>::empty()
                },
                None => exists|i: int| 0 <= i < lines.len() && stored_user(#[trigger] lines[i]@) is None,
            },
    {
        let semicolon: [char; 1] = [';'];
        assert(semicolon@ =~= seq![';']);
        let mut users = Users::new();
        let mut i: usize = 0;
        while i < lines.len()
            invariant
                i <= lines.len(),
                semicolon@ == seq![';'],
                forall|j: int| 0 <= j < i ==> stored_user(#[trigger] lines[j]@) is Some,
                users.users() == stored_users(lines.deep_view().take(i as int)),
            decreases lines.len() - i,
        {
            let chars = to_chars(lines[i].as_str());
            let fields = split(chars.as_slice(), &semicolon);
            if fields.len() < 2 {
                return None;
            }
            assert(crate::text::contents(fields@)[0] == fields@[0]@);
            assert(crate::text::contents(fields@)[1] == fields@[1]@);
            let login = from_chars(fields[0]);
            let user = User::fill(from_chars(fields[0]), from_chars(fields[1]));
            users.enter(login, user);
            proof {
                let seen = lines.deep_view().take(i + 1);
                assert(seen.drop_last() =~= lines.deep_view().take(i as int));
                assert(seen.last() == lines[i as int]@);
            }
            i += 1;
        }
        assert(lines.deep_view().take(lines.len() as int) =~= lines.deep_view());
        proof {
            use_type_invariant(&users);
            users.lemma_logins();
        }
        let session = AnonymSession { users, valid_session: ValidSession { messages: Vec::new() } };
        assert(session.messages() =~= Seq::<MessageView>::empty());
        Some(session)
    }

    /// The text that stores the users, for the next session to start from.
    pub fn storage(&self) -> (text: String)
        ensures
            text@ == storage_text(self.users()),
    {
        proof {
            reveal_strlit("\n");
        }
        assert("\n"@ =~= seq!['\n']);
        let mut text = String::new();
        let mut i: usize = 0;
        while i < self.users.len()
            invariant
                i <= self.users.users().len(),
                "\n"@ == seq!['\n'],
                text@ == storage_text(self.users.users().take(i as int)),
            decreases self.users.users().len() - i,
        {
            let line = self.users.at(i).format();
            text.append(line.as_str());
            text.append("\n");
            proof {
                let seen = self.users.users().take(i + 1);
                assert(seen.drop_last() =~= self.users.users().take(i as int));
                assert(seen.last() == self.users.users()[i as int]);
            }
            i += 1;
        }
        assert(self.users.users().take(self.users.users().len() as int) =~= self.users.users());
        text
    }

    /// Signs in a user and opens the session.
    pub fn auth(&mut self, login: &str, password: &str) -> (outcome: Result<
        &mut ValidSession,
        SessionError,
    >)
        ensures
            final(self).users() == old(self).users(),
            distinct_logins(old(self).users()),
            match outcome {
                Ok(session) => {
                    &&& sign_in_error(old(self).users(), login@, password@) is None
                    &&& session@ == old(self).messages()
                    &&& final(self).messages() == final(session)@
                },
                Err(error) => {
                    &&& sign_in_error(old(self).users(), login@, password@) == Some(error)
                    &&& *final(self) == *old(self)
                },
            },
    {
        proof {
            use_type_invariant(&self.users);
            self.users.lemma_logins();
        }
        if login.is_empty() {
            return Err(SessionError::EmptyLogin);
        }
        if password.is_empty() {
            return Err(SessionError::EmptyPassword);
        }
        match self.users.get(login) {
            Some(user) => {
                if user.auth(String::from_str(password)) {
                    return Ok(&mut self.valid_session);
                }
            },
            None => {
                return Err(SessionError::LoginNotFound);
            },
        }
        Err(SessionError::AuthFailed)
    }

    /// Signs up a new user and opens the session.
    pub fn register(&mut self, login: &str, password: &str) -> (outcome: Result<
        &mut ValidSession,
        SessionError,
    >)
        ensures
            distinct_logins(old(self).users()),
            distinct_logins(final(self).users()),
            match outcome {
                Ok(session) => {
                    &&& sign_up_error(old(self).users(), login@, password@) is None
                    &&& final(self).users() == old(self).users().push(
                        UserView { login: login@, password_hash: password_hash(password@) },
                    )
                    &&& session@ == old(self).messages()
                    &&& final(self).messages() == final(session)@
                },
                Err(error) => {
                    &&& sign_up_error(old(self).users(), login@, password@) == Some(error)
                    &&& *final(self) == *old(self)
                },
            },
    {
        proof {
            use_type_invariant(&self.users);
            self.users.lemma_logins();
        }
        if login.is_empty() {
            return Err(SessionError::EmptyLogin);
        }
        if self.users.get(login).is_some() {
            return Err(SessionError::LoginExists);
        }
        if password.is_empty() {
            return Err(SessionError::EmptyPassword);
        }
        if password.as_bytes().len() < MIN_PASSWORD_LEN {
            return Err(SessionError::PasswordTooSmall);
        }
        let user = User::new(String::from_str(login), String::from_str(password));
        self.users.enter(String::from_str(login), user);
        proof {
            use_type_invariant(&self.users);
            self.users.lemma_logins();
        }
        Ok(&mut self.valid_session)
    }
}

} // verus!
