//! What passes between a provider and its host.

use vstd::prelude::*;
use vstd::string::*;

use crate::text::{option_str_view, same};
use crate::toolkits::slack::SlackProvider;

verus! {

/// How much a run may read.
#[derive(Debug, Clone, Copy)]
pub struct SyncLimits {
    /// Most items to take in one run.
    pub max_items: usize,
    /// How many days to look back, unless all the way.
    pub depth_days: Option<u32>,
}

/// The value of one argument of an action.
#[derive(Debug)]
pub enum Argument {
    /// A text.
    Text(String),
    /// A number.
    Number(usize),
    /// A switch.
    Flag(bool),
}

/// What an argument says.
#[verifier::ext_equal]
pub enum ArgumentView {
    /// See [`Argument::Text`].
    Text(Seq<char>),
    /// See [`Argument::Number`].
    Number(nat),
    /// See [`Argument::Flag`].
    Flag(bool),
}

impl View for Argument {
    type V = ArgumentView;

    open spec fn view(&self) -> ArgumentView {
        match self {
            Argument::Text(text) => ArgumentView::Text(text@),
            Argument::Number(n) => ArgumentView::Number(*n as nat),
            Argument::Flag(on) => ArgumentView::Flag(*on),
        }
    }
}

/// An action to run, with its arguments by name.
#[derive(Debug)]
pub struct Request {
    /// The action's name.
    pub action: &'static str,
    /// Its arguments.
    pub arguments: Vec<(&'static str, Argument)>,
}

/// What a request asks for.
#[verifier::ext_equal]
pub struct RequestView {
    /// See [`Request::action`].
    pub action: Seq<char>,
    /// See [`Request::arguments`].
    pub arguments: Seq<(Seq<char>, ArgumentView)>,
}

/// What the arguments of a request say.
pub open spec fn arguments_view(arguments: Seq<(&'static str, Argument)>) -> Seq<
    (Seq<char>, ArgumentView),
> {
    arguments.map_values(|argument: (&'static str, Argument)| (argument.0@, argument.1@))
}

impl View for Request {
    type V = RequestView;

    open spec fn view(&self) -> RequestView {
        RequestView { action: self.action@, arguments: arguments_view(self.arguments@) }
    }
}

impl RequestView {
    /// The same request with one more argument.
    pub open spec fn with(self, name: Seq<char>, value: ArgumentView) -> RequestView {
        RequestView { action: self.action, arguments: self.arguments.push((name, value)) }
    }

    /// The same request with one more text argument, if there is a text.
    pub open spec fn with_text(self, name: Seq<char>, text: Option<Seq<char>>) -> RequestView {
        match text {
            Some(text) => self.with(name, ArgumentView::Text(text)),
            None => self,
        }
    }
}

/// A request without arguments.
pub open spec fn query(action: Seq<char>) -> RequestView {
    RequestView { action, arguments: Seq::empty() }
}

impl Request {
    /// A request without arguments.
    pub fn new(action: &'static str) -> (request: Self)
        ensures
            request@ == query(action@),
    {
        let request = Request { action, arguments: Vec::new() };
        assert(request@ =~= query(action@));
        request
    }

    /// The same request with one more argument.
    pub fn with(self, name: &'static str, value: Argument) -> (request: Self)
        ensures
            request@ == self@.with(name@, value@),
    {
        let mut arguments = self.arguments;
        arguments.push((name, value));
        assert(arguments_view(arguments@) =~= self@.arguments.push((name@, value@)));
        Request { action: self.action, arguments }
    }

    /// The same request with one more text argument.
    pub fn text(self, name: &'static str, text: &str) -> (request: Self)
        ensures
            request@ == self@.with(name@, ArgumentView::Text(text@)),
    {
        self.with(name, Argument::Text(text.to_owned()))
    }

    /// The same request with one more text argument, if there is a text.
    pub fn with_text(self, name: &'static str, text: Option<&str>) -> (request: Self)
        ensures
            request@ == self@.with_text(name@, option_str_view(text)),
    {
        match text {
            Some(text) => self.text(name, text),
            None => self,
        }
    }
}

/// A toolkit that a build can ship.
#[derive(Debug, Clone, Copy, PartialEq, Eq, Structural)]
pub enum Toolkit {
    /// ClickUp.
    Clickup,
    /// GitHub.
    Github,
    /// Gmail.
    Gmail,
    /// Linear.
    Linear,
    /// Notion.
    Notion,
    /// Slack, with its provider.
    Slack(SlackProvider),
}

impl Toolkit {
    /// The name that the toolkit goes by.
    pub open spec fn slug_view(self) -> Seq<char> {
        match self {
            Toolkit::Clickup => "clickup"@,
            Toolkit::Github => "github"@,
            Toolkit::Gmail => "gmail"@,
            Toolkit::Linear => "linear"@,
            Toolkit::Notion => "notion"@,
            Toolkit::Slack(_) => "slack"@,
        }
    }

    /// Whether the toolkit can be read, and not only acted on.
    pub open spec fn syncs(self) -> bool {
        match self {
            Toolkit::Clickup | Toolkit::Github | Toolkit::Gmail => true,
            Toolkit::Linear | Toolkit::Notion | Toolkit::Slack(_) => true,
        }
    }

    /// The name that the toolkit goes by.
    pub fn slug(&self) -> (slug: &'static str)
        ensures
            slug@ == self.slug_view(),
    {
        match self {
            Toolkit::Clickup => "clickup",
            Toolkit::Github => "github",
            Toolkit::Gmail => "gmail",
            Toolkit::Linear => "linear",
            Toolkit::Notion => "notion",
            Toolkit::Slack(provider) => provider.toolkit_slug(),
        }
    }

    /// Whether the toolkit can be read, and not only acted on.
    pub fn can_sync(&self) -> (can: bool)
        ensures
            can == self.syncs(),
    {
        match self {
            Toolkit::Clickup | Toolkit::Github | Toolkit::Gmail => true,
            Toolkit::Linear | Toolkit::Notion | Toolkit::Slack(_) => true,
        }
    }
}

/// The first toolkit of a list to go by `slug`.
pub open spec fn registered(toolkits: Seq<Toolkit>, slug: Seq<char>) -> Option<Toolkit>
    decreases toolkits.len(),
{
    if toolkits.len() == 0 {
        None
    } else if toolkits[0].slug_view() == slug {
        Some(toolkits[0])
    } else {
        registered(toolkits.drop_first(), slug)
    }
}

/// The toolkits of a build, in the order in which they were registered.
#[derive(Debug)]
pub struct ProviderRegistry {
    toolkits: Vec<Toolkit>,
}

impl View for ProviderRegistry {
    type V = Seq<Toolkit>;

    closed spec fn view(&self) -> Seq<Toolkit> {
        self.toolkits@
    }
}

impl ProviderRegistry {
    /// A registry without toolkits.
    pub fn new() -> (registry: Self)
        ensures
            registry@ == Seq::<Toolkit>::empty(),
    {
        ProviderRegistry { toolkits: Vec::new() }
    }

    /// The same registry with one more toolkit.
    pub fn with(self, toolkit: Toolkit) -> (registry: Self)
        ensures
            registry@ == self@.push(toolkit),
    {
        let mut toolkits = self.toolkits;
        toolkits.push(toolkit);
        ProviderRegistry { toolkits }
    }

    /// The toolkits of the registry.
    pub fn toolkits(&self) -> (toolkits: &Vec<Toolkit>)
        ensures
            toolkits@ == self@,
    {
        &self.toolkits
    }

    /// The toolkit that goes by `slug`.
    pub fn get(&self, slug: &str) -> (toolkit: Option<Toolkit>)
        ensures
            toolkit == registered(self@, slug@),
    {
        let mut i: usize = 0;
        assert(self.toolkits@.skip(0) =~= self.toolkits@);
        while i < self.toolkits.len()
            invariant
                i <= self.toolkits@.len(),
                registered(self.toolkits@, slug@) == registered(
                    self.toolkits@.skip(i as int),
                    slug@,
                ),
            decreases self.toolkits@.len() - i,
        {
            assert(self.toolkits@.skip(i as int).drop_first() =~= self.toolkits@.skip(i + 1));
            let toolkit = self.toolkits[i];
            if same(toolkit.slug(), slug) {
                return Some(toolkit);
            }
            i = i + 1;
        }
        None
    }
}

/// A name finds a toolkit that is registered and goes by it, and one that no
/// registered toolkit goes by finds none.
pub proof fn law_registered_toolkits_go_by_their_names(toolkits: Seq<Toolkit>, slug: Seq<char>)
    ensures
        registered(toolkits, slug) matches Some(toolkit) ==> toolkits.contains(toolkit)
            && toolkit.slug_view() == slug,
        registered(toolkits, slug) is None ==> forall|i: int|
            0 <= i < toolkits.len() ==> (#[trigger] toolkits[i]).slug_view() != slug,
    decreases toolkits.len(),
{
    if toolkits.len() > 0 && toolkits[0].slug_view() != slug {
        let rest = toolkits.drop_first();
        law_registered_toolkits_go_by_their_names(rest, slug);
        if let Some(toolkit) = registered(rest, slug) {
            let i = choose|i: int| 0 <= i < rest.len() && rest[i] == toolkit;
            assert(toolkits[i + 1] == toolkit);
        } else {
            assert forall|i: int| 0 <= i < toolkits.len() implies (
            #[trigger] toolkits[i]).slug_view() != slug by {
                if i > 0 {
                    assert(rest[i - 1] == toolkits[i]);
                }
            }
        }
    }
}

/// An argument that is added stands behind the others, under its name, and leaves
/// them and the action as they are; no text adds none.
pub proof fn law_arguments_add_up(
    request: RequestView,
    name: Seq<char>,
    value: ArgumentView,
    text: Seq<char>,
)
    ensures
        query(request.action).action == request.action,
        query(request.action).arguments.len() == 0,
        request.with(name, value).action == request.action,
        request.with(name, value).arguments == request.arguments + seq![(name, value)],
        request.with_text(name, Some(text)) == request.with(name, ArgumentView::Text(text)),
        request.with_text(name, None) == request,
{
}

/// What a request says is what it holds, argument for argument.
pub proof fn law_requests_say_what_they_hold(request: Request, i: int)
    ensures
        request@.action == request.action@,
        request@.arguments.len() == request.arguments@.len(),
        0 <= i < request.arguments@.len() ==> request@.arguments[i].0 == request.arguments@[i].0@
            && (match request.arguments@[i].1 {
            Argument::Text(text) => request@.arguments[i].1 == ArgumentView::Text(text@),
            Argument::Number(n) => request@.arguments[i].1 == ArgumentView::Number(n as nat),
            Argument::Flag(on) => request@.arguments[i].1 == ArgumentView::Flag(on),
        }),
{
}

} // verus!
