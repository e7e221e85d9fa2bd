//! The date and the working directory, told with the first message of the user.
//!
//! They are no part of the system prompt, so that this stays the same from request to request, and are
//! never stored: they are put into the messages of a request. When they change they go with the next
//! new message of the user, or in a message of their own at the end; what earlier requests held stays.
use crate::js;
use crate::json::{object_2, Json, JsonView};
use crate::prompt;
use crate::same;
use crate::same::{equal_message, equal_user_message};
use crate::text;
use crate::text::{clone_all, is_at, same_text, to_chars, Space};
use crate::types::{
    Context, ContextView, DeveloperMessage, DeveloperMessageView, Message, MessageView, TextContentView, UserBlock,
    UserBlockView, UserContent, UserContentView, UserMessage, UserMessageView,
};
use vstd::prelude::*;

verus! {

/// What is told where the template does not render.
pub open spec fn plain_reminder(date: Seq<char>, cwd: Seq<char>) -> Seq<char> {
    "<system-reminder>\nToday: "@ + date + "; current working directory: '"@ + cwd
        + "'.\n</system-reminder>"@
}

/// What is told of a date and a working directory, given what the template rendered to.
pub open spec fn reminder_from(
    rendered: Result<Seq<char>, Seq<char>>,
    date: Seq<char>,
    cwd: Seq<char>,
) -> Seq<char> {
    match rendered {
        Ok(s) => text::trim(Space::Js, s),
        Err(_) => text::trim(Space::Js, plain_reminder(date, cwd)),
    }
}

/// What is told of a date and a working directory.
pub open spec fn reminder_text(template: Seq<char>, date: Seq<char>, cwd: Seq<char>) -> Seq<char> {
    reminder_from(
        prompt::prompt_text(
            prompt::prompt_engine(),
            template,
            JsonView::Object(
                seq![("date"@, JsonView::String(date)), ("cwd"@, JsonView::String(cwd))],
            ),
        ),
        date,
        cwd,
    )
}

/// What is told of a date and a working directory, by a template.
pub fn render_date_cwd_reminder(template: &str, date: &str, cwd: &str) -> (r: String)
    ensures
        r@ == reminder_text(template@, date@, cwd@),
{
    let d = Json::String(date.to_string());
    let c = Json::String(cwd.to_string());
    let data = object_2("date", d, "cwd", c);
    match prompt::render(template, &data) {
        Ok(s) => js::trim(&s),
        Err(_) => {
            let mut s = "<system-reminder>\nToday: ".to_string();
            s.append(date);
            s.append("; current working directory: '");
            s.append(cwd);
            s.append("'.\n</system-reminder>");
            js::trim(&s)
        },
    }
}

/// Whether a message starts with a reminder already.
pub open spec fn starts_with_reminder(m: UserMessageView, reminder: Seq<char>) -> bool {
    match m.content {
        UserContentView::Text(t) => text::stands_at(t, 0, reminder),
        UserContentView::Blocks(blocks) => blocks.len() > 0 && match blocks[0] {
            UserBlockView::Text(t) => t.text == reminder,
            _ => false,
        },
    }
}

fn has_reminder(m: &UserMessage, reminder: &str) -> (r: bool)
    ensures
        r == starts_with_reminder(m@, reminder@),
{
    match &m.content {
        UserContent::Text(t) => {
            let v = to_chars(t);
            is_at(&v, 0, reminder)
        },
        UserContent::Blocks(blocks) => {
            if blocks.len() == 0 {
                return false;
            }
            assert(text::views(blocks@)[0] == blocks@[0]@);
            match &blocks[0] {
                UserBlock::Text(t) => same_text(&t.text, reminder),
                _ => false,
            }
        },
    }
}

/// A message with a reminder in front.
pub open spec fn injected(m: UserMessageView, reminder: Seq<char>) -> UserMessageView {
    UserMessageView {
        content: match m.content {
            UserContentView::Text(t) => UserContentView::Text(reminder + "\n\n"@ + t),
            UserContentView::Blocks(blocks) => UserContentView::Blocks(
                seq![
                    UserBlockView::Text(TextContentView { text: reminder, text_signature: None }),
                ] + blocks,
            ),
        },
        ..m
    }
}

fn inject(m: &UserMessage, reminder: &str) -> (r: UserMessage)
    ensures
        r@ == injected(m@, reminder@),
{
    let content = match &m.content {
        UserContent::Text(t) => {
            let mut s = reminder.to_string();
            s.append("\n\n");
            s.append(t);
            UserContent::Text(s)
        },
        UserContent::Blocks(blocks) => {
            let first = UserBlock::text(reminder);
            let mut out = clone_all(blocks);
            let ghost rest = text::views(out@);
            out.insert(0, first);
            assert(text::views(out@) =~= seq![first@] + rest);
            UserContent::Blocks(out)
        },
    };
    UserMessage { content, synthetic: m.synthetic, timestamp: m.timestamp }
}

// ------------------------------------------------------------------ state

/// A message told with the message at an index, as long as that is there unchanged.
#[derive(Debug)]
pub struct Placement {
    pub index: usize,
    pub original: Message,
    pub told: Message,
}

/// What a [`Placement`] stands for.
#[verifier::ext_equal]
pub struct PlacementView {
    pub index: usize,
    pub original: MessageView,
    pub told: MessageView,
}

impl View for Placement {
    type V = PlacementView;

    open spec fn view(&self) -> PlacementView {
        PlacementView {
            index: self.index,
            original: self.original@,
            told: self.told@,
        }
    }
}

impl Clone for Placement {
    fn clone(&self) -> (r: Placement)
        ensures
            r@ == self@,
    {
        Placement {
            index: self.index,
            original: self.original.clone(),
            told: self.told.clone(),
        }
    }
}

/// What was told so far. A message is known by its index and what it holds.
#[derive(Debug)]
pub struct DateCwdReminder {
    /// The first message of the user that the reminders belong to, with its index.
    pub root: Option<(usize, UserMessage)>,
    pub current: Option<String>,
    /// Messages told in place of others.
    pub injections: Vec<Placement>,
    /// Messages told behind others.
    pub controls: Vec<Placement>,
    /// The messages of the request before.
    pub seen: Vec<Message>,
}

/// What a [`DateCwdReminder`] stands for.
#[verifier::ext_equal]
pub struct ReminderView {
    pub root: Option<(usize, UserMessageView)>,
    pub current: Option<Seq<char>>,
    pub injections: Seq<PlacementView>,
    pub controls: Seq<PlacementView>,
    pub seen: Seq<MessageView>,
}

/// A root by what it stands for.
pub open spec fn root_view(root: Option<(usize, UserMessage)>) -> Option<(usize, UserMessageView)> {
    match root {
        Some((i, m)) => Some((i, m@)),
        None => None,
    }
}

impl View for DateCwdReminder {
    type V = ReminderView;

    open spec fn view(&self) -> ReminderView {
        ReminderView {
            root: root_view(self.root),
            current: text::opt_view(self.current),
            injections: text::views(self.injections@),
            controls: text::views(self.controls@),
            seen: text::views(self.seen@),
        }
    }
}

/// The index of the first message of the user, from `i` on.
pub open spec fn first_user(messages: Seq<MessageView>, i: int) -> Option<int>
    decreases messages.len() - i,
{
    if i < 0 || i >= messages.len() {
        None
    } else if messages[i] is User {
        Some(i)
    } else {
        first_user(messages, i + 1)
    }
}

/// Whether the request before had the message at this index.
pub open spec fn was_seen(seen: Seq<MessageView>, i: int, m: MessageView) -> bool {
    i < seen.len() && same::same_message(seen[i], m)
}

/// The index of the last message of the user that was not seen, among the first `n`.
pub open spec fn last_new_user(
    messages: Seq<MessageView>,
    seen: Seq<MessageView>,
    n: int,
) -> Option<int>
    decreases n,
{
    if n <= 0 {
        None
    } else if messages[n - 1] is User && !was_seen(seen, n - 1, messages[n - 1]) {
        Some(n - 1)
    } else {
        last_new_user(messages, seen, n - 1)
    }
}

/// A message of its own.
pub open spec fn developer_note(reminder: Seq<char>, now: i64) -> MessageView {
    MessageView::Developer(
        DeveloperMessageView { content: UserContentView::Text(reminder), timestamp: now },
    )
}

/// The state after what is to be told is settled for a request whose first message of the user is
/// at `first`.
pub open spec fn settled(
    st: ReminderView,
    messages: Seq<MessageView>,
    first: int,
    reminder: Seq<char>,
    now: i64,
) -> ReminderView {
    let user = messages[first]->User_0;
    if st.root != Some((first as usize, user)) {
        ReminderView {
            root: Some((first as usize, user)),
            current: Some(reminder),
            injections: if starts_with_reminder(user, reminder) {
                Seq::empty()
            } else {
                seq![
                    PlacementView {
                        index: first as usize,
                        original: messages[first],
                        told: MessageView::User(injected(user, reminder)),
                    },
                ]
            },
            controls: Seq::empty(),
            seen: Seq::empty(),
        }
    } else if st.current == Some(reminder) {
        st
    } else {
        match last_new_user(messages, st.seen, messages.len() as int) {
            Some(i) => ReminderView {
                current: Some(reminder),
                injections: st.injections.push(
                    PlacementView {
                        index: i as usize,
                        original: messages[i],
                        told: MessageView::User(injected(messages[i]->User_0, reminder)),
                    },
                ),
                ..st
            },
            None => ReminderView {
                current: Some(reminder),
                controls: st.controls.push(
                    PlacementView {
                        index: (messages.len() - 1) as usize,
                        original: messages.last(),
                        told: developer_note(reminder, now),
                    },
                ),
                ..st
            },
        }
    }
}

/// Whether a placement belongs to a message.
pub open spec fn belongs(p: PlacementView, i: int, m: MessageView) -> bool {
    p.index == i && same::same_message(p.original, m)
}

/// What is told in place of a message: the last injection that belongs to it, or the message.
pub open spec fn told_for(injections: Seq<PlacementView>, i: int, m: MessageView) -> MessageView
    decreases injections.len(),
{
    if injections.len() == 0 {
        m
    } else if belongs(injections.last(), i, m) {
        injections.last().told
    } else {
        told_for(injections.drop_last(), i, m)
    }
}

/// What is told behind a message.
pub open spec fn told_behind(controls: Seq<PlacementView>, i: int, m: MessageView) -> Seq<MessageView>
    decreases controls.len(),
{
    if controls.len() == 0 {
        Seq::empty()
    } else {
        let have = told_behind(controls.drop_last(), i, m);
        if belongs(controls.last(), i, m) {
            have.push(controls.last().told)
        } else {
            have
        }
    }
}

/// The messages as they are told.
pub open spec fn told_messages(
    injections: Seq<PlacementView>,
    controls: Seq<PlacementView>,
    messages: Seq<MessageView>,
) -> Seq<MessageView>
    decreases messages.len(),
{
    if messages.len() == 0 {
        Seq::empty()
    } else {
        let i = messages.len() - 1;
        told_messages(injections, controls, messages.drop_last()).push(
            told_for(injections, i, messages.last()),
        ) + told_behind(controls, i, messages.last())
    }
}

/// The state and the messages of a request, given what is to be told. Without a system prompt or a
/// message of the user nothing is told.
pub open spec fn reminded(st: ReminderView, c: ContextView, reminder: Seq<char>, now: i64) -> (
    ReminderView,
    Seq<MessageView>,
) {
    match first_user(c.messages, 0) {
        Some(first) => if c.system_prompt.len() == 0 {
            (st, c.messages)
        } else {
            let s = settled(st, c.messages, first, reminder, now);
            (
                ReminderView { seen: c.messages, ..s },
                told_messages(s.injections, s.controls, c.messages),
            )
        },
        None => (st, c.messages),
    }
}

/// Nothing was told.
pub open spec fn nothing_told() -> ReminderView {
    ReminderView {
        root: None,
        current: None,
        injections: Seq::empty(),
        controls: Seq::empty(),
        seen: Seq::empty(),
    }
}

fn find_first_user(messages: &Vec<Message>) -> (r: Option<usize>)
    ensures
        match r {
            Some(i) => first_user(text::views(messages@), 0) == Some(i as int) && i
                < messages@.len() && messages@[i as int] is User,
            None => first_user(text::views(messages@), 0) is None,
        },
{
    let ghost all = text::views(messages@);
    let mut i: usize = 0;
    while i < messages.len()
        invariant
            i <= messages@.len(),
            all == text::views(messages@),
            first_user(all, 0) == first_user(all, i as int),
        decreases messages@.len() - i,
    {
        assert(all[i as int] == messages@[i as int]@);
        match &messages[i] {
            Message::User(_) => {
                return Some(i);
            },
            _ => {},
        }
        i += 1;
    }
    None
}

fn find_last_new_user(messages: &Vec<Message>, seen: &Vec<Message>) -> (r: Option<usize>)
    ensures
        match r {
            Some(i) => last_new_user(
                text::views(messages@),
                text::views(seen@),
                messages@.len() as int,
            ) == Some(i as int) && i < messages@.len() && messages@[i as int] is User,
            None => last_new_user(
                text::views(messages@),
                text::views(seen@),
                messages@.len() as int,
            ) is None,
        },
{
    let ghost all = text::views(messages@);
    let ghost before = text::views(seen@);
    let mut n: usize = messages.len();
    while n > 0
        invariant
            n <= messages@.len(),
            all == text::views(messages@),
            before == text::views(seen@),
            last_new_user(all, before, all.len() as int) == last_new_user(all, before, n as int),
        decreases n,
    {
        assert(all[n as int - 1] == messages@[n as int - 1]@);
        match &messages[n - 1] {
            Message::User(_) => {
                let known = if n - 1 < seen.len() {
                    assert(before[n as int - 1] == seen@[n as int - 1]@);
                    equal_message(&seen[n - 1], &messages[n - 1])
                } else {
                    false
                };
                if !known {
                    return Some(n - 1);
                }
            },
            _ => {},
        }
        n -= 1;
    }
    None
}

fn is_placed(p: &Placement, i: usize, m: &Message) -> (r: bool)
    ensures
        r == belongs(p@, i as int, m@),
{
    p.index == i && equal_message(&p.original, m)
}

fn find_told(injections: &Vec<Placement>, i: usize, m: &Message) -> (r: Message)
    ensures
        r@ == told_for(text::views(injections@), i as int, m@),
{
    let ghost all = text::views(injections@);
    let mut n: usize = injections.len();
    assert(all.take(n as int) =~= all);
    while n > 0
        invariant
            n <= injections@.len(),
            all == text::views(injections@),
            told_for(all, i as int, m@) == told_for(all.take(n as int), i as int, m@),
        decreases n,
    {
        proof {
            assert(all.take(n as int).drop_last() =~= all.take(n as int - 1));
            assert(all.take(n as int).last() == injections@[n as int - 1]@);
        }
        if is_placed(&injections[n - 1], i, m) {
            return injections[n - 1].told.clone();
        }
        n -= 1;
    }
    m.clone()
}

fn push_told_behind(out: &mut Vec<Message>, controls: &Vec<Placement>, i: usize, m: &Message)
    ensures
        text::views(final(out)@) == text::views(old(out)@) + told_behind(
            text::views(controls@),
            i as int,
            m@,
        ),
{
    let ghost before = text::views(out@);
    let ghost all = text::views(controls@);
    let mut k: usize = 0;
    proof {
        assert(all.take(0) =~= Seq::<PlacementView>::empty());
        assert(before + Seq::<MessageView>::empty() =~= before);
    }
    while k < controls.len()
        invariant
            k <= controls@.len(),
            all == text::views(controls@),
            text::views(out@) == before + told_behind(all.take(k as int), i as int, m@),
        decreases controls@.len() - k,
    {
        proof {
            assert(all.take(k as int + 1).drop_last() =~= all.take(k as int));
            assert(all.take(k as int + 1).last() == controls@[k as int]@);
        }
        if is_placed(&controls[k], i, m) {
            let c = controls[k].told.clone();
            let ghost have = told_behind(all.take(k as int), i as int, m@);
            proof {
                text::lemma_views_push(out@, c);
                assert((before + have).push(c@) =~= before + have.push(c@));
            }
            out.push(c);
        }
        k += 1;
    }
    assert(all.take(k as int) =~= all);
}

fn tell(injections: &Vec<Placement>, controls: &Vec<Placement>, messages: &Vec<Message>) -> (r: Vec<
    Message,
>)
    ensures
        text::views(r@) == told_messages(
            text::views(injections@),
            text::views(controls@),
            text::views(messages@),
        ),
{
    let ghost all = text::views(messages@);
    let ghost inj = text::views(injections@);
    let ghost ctl = text::views(controls@);
    let mut out: Vec<Message> = Vec::new();
    let mut i: usize = 0;
    proof {
        assert(all.take(0) =~= Seq::<MessageView>::empty());
        assert(text::views(out@) =~= Seq::empty());
    }
    while i < messages.len()
        invariant
            i <= messages@.len(),
            all == text::views(messages@),
            inj == text::views(injections@),
            ctl == text::views(controls@),
            text::views(out@) == told_messages(inj, ctl, all.take(i as int)),
        decreases messages@.len() - i,
    {
        proof {
            assert(all.take(i as int + 1).drop_last() =~= all.take(i as int));
            assert(all.take(i as int + 1).last() == messages@[i as int]@);
        }
        let m = find_told(injections, i, &messages[i]);
        proof {
            text::lemma_views_push(out@, m);
        }
        out.push(m);
        push_told_behind(&mut out, controls, i, &messages[i]);
        i += 1;
    }
    assert(all.take(i as int) =~= all);
    out
}

impl DateCwdReminder {
    /// Nothing was told.
    pub fn new() -> (r: DateCwdReminder)
        ensures
            r@ == nothing_told(),
    {
        let r = DateCwdReminder {
            root: None,
            current: None,
            injections: Vec::new(),
            controls: Vec::new(),
            seen: Vec::new(),
        };
        assert(r@ =~= nothing_told());
        r
    }

    fn settle(&mut self, messages: &Vec<Message>, first: usize, reminder: &str, now: i64)
        requires
            first < messages@.len(),
            messages@[first as int] is User,
        ensures
            final(self)@ == settled(
                old(self)@,
                text::views(messages@),
                first as int,
                reminder@,
                now,
            ),
    {
        let ghost all = text::views(messages@);
        let ghost before = self@;
        let n: usize = messages.len();
        assert(all[first as int] == messages@[first as int]@);
        match &messages[first] {
            Message::User(user) => {
                let same_root = match &self.root {
                    Some((i, m)) => *i == first && equal_user_message(m, user),
                    None => false,
                };
                if !same_root {
                    assert(before.root != Some((first, user@)));
                    self.root = Some((first, user.clone()));
                    self.current = Some(reminder.to_string());
                    self.injections = Vec::new();
                    self.controls = Vec::new();
                    self.seen = Vec::new();
                    if !has_reminder(user, reminder) {
                        self.injections.push(
                            Placement {
                                index: first,
                                original: messages[first].clone(),
                                told: Message::User(inject(user, reminder)),
                            },
                        );
                    }
                    proof {
                        let goal = settled(before, all, first as int, reminder@, now);
                        assert(self@.injections =~= goal.injections);
                        assert(self@.controls =~= goal.controls);
                        assert(self@.seen =~= goal.seen);
                    }
                    return;
                }
                let told_already = match &self.current {
                    Some(c) => same_text(c, reminder),
                    None => false,
                };
                if told_already {
                    return;
                }
                match find_last_new_user(messages, &self.seen) {
                    Some(i) => {
                        assert(all[i as int] == messages@[i as int]@);
                        match &messages[i] {
                            Message::User(u) => {
                                let p = Placement {
                                    index: i,
                                    original: messages[i].clone(),
                                    told: Message::User(inject(u, reminder)),
                                };
                                proof {
                                    text::lemma_views_push(self.injections@, p);
                                }
                                self.injections.push(p);
                            },
                            _ => {},
                        }
                    },
                    None => {
                        assert(all.last() == messages@[n as int - 1]@);
                        let p = Placement {
                            index: n - 1,
                            original: messages[n - 1].clone(),
                            told: Message::Developer(
                                DeveloperMessage {
                                    content: UserContent::Text(reminder.to_string()),
                                    timestamp: now,
                                },
                            ),
                        };
                        proof {
                            text::lemma_views_push(self.controls@, p);
                        }
                        self.controls.push(p);
                    },
                }
                self.current = Some(reminder.to_string());
            },
            _ => {},
        }
    }

    /// Tells what is to be told with the messages of a request: the messages are put in the place of
    /// those of the context.
    pub fn remind(&mut self, context: Context, reminder: &str, now: i64) -> (r: Context)
        ensures
            r@ == (ContextView {
                messages: reminded(old(self)@, context@, reminder@, now).1,
                ..context@
            }),
            final(self)@ == reminded(old(self)@, context@, reminder@, now).0,
    {
        if context.system_prompt.len() == 0 {
            return context;
        }
        match find_first_user(&context.messages) {
            None => context,
            Some(first) => {
                self.settle(&context.messages, first, reminder, now);
                let messages = tell(&self.injections, &self.controls, &context.messages);
                self.seen = clone_all(&context.messages);
                Context {
                    messages,
                    system_prompt: context.system_prompt,
                    tools: context.tools,
                }
            },
        }
    }

    /// Tells the date and the working directory with the messages of a request.
    pub fn transform(
        &mut self,
        context: Context,
        template: &str,
        date: &str,
        cwd: &str,
        now: i64,
    ) -> (r: Context)
        ensures
            r@ == (ContextView {
                messages: reminded(
                    old(self)@,
                    context@,
                    reminder_text(template@, date@, cwd@),
                    now,
                ).1,
                ..context@
            }),
            final(self)@ == reminded(
                old(self)@,
                context@,
                reminder_text(template@, date@, cwd@),
                now,
            ).0,
    {
        let reminder = render_date_cwd_reminder(template, date, cwd);
        self.remind(context, &reminder, now)
    }
}

// ------------------------------------------------------------------ laws

/// What is told stays what it is where the placements that are added belong elsewhere.
proof fn lemma_told_for_push(injections: Seq<PlacementView>, p: PlacementView, i: int, m: MessageView)
    requires
        p.index != i,
    ensures
        told_for(injections.push(p), i, m) == told_for(injections, i, m),
{
    assert(injections.push(p).drop_last() =~= injections);
}

proof fn lemma_told_behind_push(
    controls: Seq<PlacementView>,
    p: PlacementView,
    i: int,
    m: MessageView,
)
    ensures
        told_behind(controls.push(p), i, m) == (if belongs(p, i, m) {
            told_behind(controls, i, m).push(p.told)
        } else {
            told_behind(controls, i, m)
        }),
{
    assert(controls.push(p).drop_last() =~= controls);
}

proof fn lemma_new_injection_elsewhere(
    injections: Seq<PlacementView>,
    p: PlacementView,
    controls: Seq<PlacementView>,
    messages: Seq<MessageView>,
)
    requires
        p.index >= messages.len(),
    ensures
        told_messages(injections.push(p), controls, messages) == told_messages(
            injections,
            controls,
            messages,
        ),
    decreases messages.len(),
{
    if messages.len() > 0 {
        lemma_new_injection_elsewhere(injections, p, controls, messages.drop_last());
        lemma_told_for_push(injections, p, messages.len() - 1, messages.last());
    }
}

proof fn lemma_new_control_elsewhere(
    injections: Seq<PlacementView>,
    controls: Seq<PlacementView>,
    p: PlacementView,
    messages: Seq<MessageView>,
)
    requires
        p.index >= messages.len(),
    ensures
        told_messages(injections, controls.push(p), messages) == told_messages(
            injections,
            controls,
            messages,
        ),
    decreases messages.len(),
{
    if messages.len() > 0 {
        lemma_new_control_elsewhere(injections, controls, p, messages.drop_last());
        lemma_told_behind_push(controls, p, messages.len() - 1, messages.last());
    }
}

/// More messages are told behind those that were told.
proof fn lemma_told_prefix(
    injections: Seq<PlacementView>,
    controls: Seq<PlacementView>,
    messages: Seq<MessageView>,
    n: int,
)
    requires
        0 <= n <= messages.len(),
    ensures
        told_messages(injections, controls, messages.take(n)).is_prefix_of(
            told_messages(injections, controls, messages),
        ),
    decreases messages.len(),
{
    if n == messages.len() {
        assert(messages.take(n) =~= messages);
    } else {
        lemma_told_prefix(injections, controls, messages.drop_last(), n);
        assert(messages.drop_last().take(n) =~= messages.take(n));
        let a = told_messages(injections, controls, messages.take(n));
        let b = told_messages(injections, controls, messages.drop_last());
        let c = told_messages(injections, controls, messages);
        assert(b.is_prefix_of(c)) by {
            assert(c.take(b.len() as int) =~= b);
        }
        assert(a =~= c.take(a.len() as int));
    }
}

proof fn lemma_first_user_extends(a: Seq<MessageView>, b: Seq<MessageView>, i: int)
    requires
        0 <= i,
        a.is_prefix_of(b),
        first_user(a, i) is Some,
    ensures
        first_user(b, i) == first_user(a, i),
        i <= first_user(a, i).unwrap() < a.len(),
        a[first_user(a, i).unwrap()] is User,
    decreases a.len() - i,
{
    if i < a.len() {
        assert(b[i] == a[i]);
        if !(a[i] is User) {
            lemma_first_user_extends(a, b, i + 1);
        }
    }
}

proof fn lemma_last_new_user(messages: Seq<MessageView>, seen: Seq<MessageView>, n: int)
    requires
        0 <= n <= messages.len(),
        seen.is_prefix_of(messages),
        last_new_user(messages, seen, n) is Some,
    ensures
        seen.len() <= last_new_user(messages, seen, n).unwrap() < n,
        messages[last_new_user(messages, seen, n).unwrap()] is User,
    decreases n,
{
    if n > 0 {
        if n - 1 < seen.len() {
            assert(messages[n - 1] == seen[n - 1]);
        }
        if !(messages[n - 1] is User && !was_seen(seen, n - 1, messages[n - 1])) {
            lemma_last_new_user(messages, seen, n - 1);
        }
    }
}

/// What a request told stays in the next request that goes on from it, whatever is told then: the
/// messages told are the first of those told next.
pub proof fn law_what_was_told_stays(
    st: ReminderView,
    c: ContextView,
    reminder: Seq<char>,
    now: i64,
    next: ContextView,
    next_reminder: Seq<char>,
    later: i64,
)
    requires
        c.system_prompt.len() > 0,
        next.system_prompt.len() > 0,
        first_user(c.messages, 0) is Some,
        c.messages.is_prefix_of(next.messages),
        next.messages.len() <= usize::MAX,
    ensures
        reminded(st, c, reminder, now).1.is_prefix_of(
            reminded(reminded(st, c, reminder, now).0, next, next_reminder, later).1,
        ),
{
    let old_messages = c.messages;
    let all = next.messages;
    lemma_first_user_extends(old_messages, all, 0);
    let first = first_user(old_messages, 0).unwrap();
    assert(all[first] == old_messages[first]);
    let s = settled(st, old_messages, first, reminder, now);
    let mid = ReminderView { seen: old_messages, ..s };
    let user = old_messages[first]->User_0;
    assert(mid.root == Some((first as usize, user)));
    let t = settled(mid, all, first, next_reminder, later);
    let n = old_messages.len() as int;
    assert(all.take(n) =~= old_messages);
    lemma_told_prefix(s.injections, s.controls, all, n);
    if mid.current != Some(next_reminder) {
        match last_new_user(all, mid.seen, all.len() as int) {
            Some(i) => {
                lemma_last_new_user(all, mid.seen, all.len() as int);
                let p = t.injections.last();
                assert(t.injections =~= s.injections.push(p));
                lemma_new_injection_elsewhere(s.injections, p, s.controls, old_messages);
                lemma_told_prefix(t.injections, t.controls, all, n);
            },
            None => {
                let p = t.controls.last();
                assert(t.controls =~= s.controls.push(p));
                let rest = all.drop_last();
                assert(rest.len() == all.len() - 1);
                lemma_new_control_elsewhere(s.injections, s.controls, p, rest);
                lemma_told_behind_push(s.controls, p, all.len() - 1, all.last());
                let a = told_messages(s.injections, s.controls, all);
                let b = told_messages(t.injections, t.controls, all);
                assert(b.take(a.len() as int) =~= a);
                let told = told_messages(s.injections, s.controls, old_messages);
                assert(b.take(told.len() as int) =~= a.take(told.len() as int));
                assert(told =~= b.take(told.len() as int));
            },
        }
    }
}

/// Without a system prompt, or without a message of the user, nothing is told.
pub proof fn law_nothing_is_told_without_a_turn(
    st: ReminderView,
    c: ContextView,
    reminder: Seq<char>,
    now: i64,
)
    requires
        c.system_prompt.len() == 0 || first_user(c.messages, 0) is None,
    ensures
        reminded(st, c, reminder, now) == (st, c.messages),
{
}

} // verus!
