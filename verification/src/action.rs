//! The actions that a user can bind to keys, and the contexts in which a
//! binding applies.
use vstd::prelude::*;
use crate::text::str_eq;

verus! {

/// The possible actions that the user can do.
#[derive(Debug, PartialEq, Eq, Structural, Clone, Copy, Hash)]
pub enum Action {
    ChangeDir,
    ChangeDirParent,
    ChangeDirHome,
    ChangeDirRoot,
    ChangeDirAndExit,
    CursorUp,
    CursorDown,
    CursorUpScreen,
    CursorDownScreen,
    CursorTop,
    CursorBottom,
    EraseSearchChar,
    ClearSearch,
    ChangeFilterSearchMode,
    ChangeCaseSensitiveMode,
    ChangeGapSearchMode,
    ChangeSortMode,
    RefreshListing,
    Help,
    Exit,
    ExitWithoutCd,
    /// Removes a mapping: mapping a key to this action disables the key.
    Unbind,
}

/// All actions, in the order in which they are declared.
pub open spec fn all_actions() -> Seq<Action> {
    seq![
        Action::ChangeDir,
        Action::ChangeDirParent,
        Action::ChangeDirHome,
        Action::ChangeDirRoot,
        Action::ChangeDirAndExit,
        Action::CursorUp,
        Action::CursorDown,
        Action::CursorUpScreen,
        Action::CursorDownScreen,
        Action::CursorTop,
        Action::CursorBottom,
        Action::EraseSearchChar,
        Action::ClearSearch,
        Action::ChangeFilterSearchMode,
        Action::ChangeCaseSensitiveMode,
        Action::ChangeGapSearchMode,
        Action::ChangeSortMode,
        Action::RefreshListing,
        Action::Help,
        Action::Exit,
        Action::ExitWithoutCd,
        Action::Unbind,
    ]
}

/// The name of an action, as it is written in a key mapping.
pub open spec fn action_name(a: Action) -> &'static str {
    match a {
        Action::ChangeDir => "ChangeDir",
        Action::ChangeDirParent => "ChangeDirParent",
        Action::ChangeDirHome => "ChangeDirHome",
        Action::ChangeDirRoot => "ChangeDirRoot",
        Action::ChangeDirAndExit => "ChangeDirAndExit",
        Action::CursorUp => "CursorUp",
        Action::CursorDown => "CursorDown",
        Action::CursorUpScreen => "CursorUpScreen",
        Action::CursorDownScreen => "CursorDownScreen",
        Action::CursorTop => "CursorTop",
        Action::CursorBottom => "CursorBottom",
        Action::EraseSearchChar => "EraseSearchChar",
        Action::ClearSearch => "ClearSearch",
        Action::ChangeFilterSearchMode => "ChangeFilterSearchMode",
        Action::ChangeCaseSensitiveMode => "ChangeCaseSensitiveMode",
        Action::ChangeGapSearchMode => "ChangeGapSearchMode",
        Action::ChangeSortMode => "ChangeSortMode",
        Action::RefreshListing => "RefreshListing",
        Action::Help => "Help",
        Action::Exit => "Exit",
        Action::ExitWithoutCd => "ExitWithoutCd",
        Action::Unbind => "None",
    }
}

/// The one-line description of an action, shown in the help.
pub open spec fn action_description(a: Action) -> &'static str {
    match a {
        Action::ChangeDir => "Enter directory under the cursor",
        Action::ChangeDirParent => "Go to the parent directory",
        Action::ChangeDirHome => "Go to the home directory",
        Action::ChangeDirRoot => "Go to the root directory",
        Action::ChangeDirAndExit => "Enter the directory under the cursor and exit",
        Action::CursorUp => "Move the cursor up by one step",
        Action::CursorDown => "Move the cursor down by one step",
        Action::CursorUpScreen => "Move the cursor up by one screenful",
        Action::CursorDownScreen => "Move the cursor down by one screenful",
        Action::CursorTop => "Move the cursor to the first item in the listing",
        Action::CursorBottom => "Move the cursor to the last item in the listing",
        Action::EraseSearchChar => "Erase one character from the search",
        Action::ClearSearch => "Clear the search",
        Action::ChangeFilterSearchMode => "Toggle the filter-search mode",
        Action::ChangeCaseSensitiveMode => "Change the case-sensitive mode",
        Action::ChangeGapSearchMode => "Change the gap-search mode",
        Action::ChangeSortMode => "Change the sorting mode",
        Action::RefreshListing => "Refresh the directory listing",
        Action::Help => "Show the help screen",
        Action::Exit => "Exit the program",
        Action::ExitWithoutCd => "Exit the program without changing the working directory",
        Action::Unbind => "Disable this mapping",
    }
}

/// The first action, in declaration order from index `i` on, whose name is `s`.
pub open spec fn action_named_from(s: Seq<char>, i: int) -> Option<Action>
    decreases 22 - i,
{
    if i < 0 || i >= 22 {
        Option::None
    } else if action_name(all_actions()[i])@ == s {
        Some(all_actions()[i])
    } else {
        action_named_from(s, i + 1)
    }
}

/// The action whose name is `s`, if there is one.
pub open spec fn action_named(s: Seq<char>) -> Option<Action> {
    action_named_from(s, 0)
}

impl Action {
    /// The one-line description of this action.
    pub fn description(&self) -> (r: &'static str)
        ensures
            r == action_description(*self),
    {
        match self {
            Action::ChangeDir => "Enter directory under the cursor",
            Action::ChangeDirParent => "Go to the parent directory",
            Action::ChangeDirHome => "Go to the home directory",
            Action::ChangeDirRoot => "Go to the root directory",
            Action::ChangeDirAndExit => "Enter the directory under the cursor and exit",
            Action::CursorUp => "Move the cursor up by one step",
            Action::CursorDown => "Move the cursor down by one step",
            Action::CursorUpScreen => "Move the cursor up by one screenful",
            Action::CursorDownScreen => "Move the cursor down by one screenful",
            Action::CursorTop => "Move the cursor to the first item in the listing",
            Action::CursorBottom => "Move the cursor to the last item in the listing",
            Action::EraseSearchChar => "Erase one character from the search",
            Action::ClearSearch => "Clear the search",
            Action::ChangeFilterSearchMode => "Toggle the filter-search mode",
            Action::ChangeCaseSensitiveMode => "Change the case-sensitive mode",
            Action::ChangeGapSearchMode => "Change the gap-search mode",
            Action::ChangeSortMode => "Change the sorting mode",
            Action::RefreshListing => "Refresh the directory listing",
            Action::Help => "Show the help screen",
            Action::Exit => "Exit the program",
            Action::ExitWithoutCd => "Exit the program without changing the working directory",
            Action::Unbind => "Disable this mapping",
        }
    }

    /// The name of this action, as it is written in a key mapping.
    pub fn name(&self) -> (r: &'static str)
        ensures
            r == action_name(*self),
    {
        match self {
            Action::ChangeDir => "ChangeDir",
            Action::ChangeDirParent => "ChangeDirParent",
            Action::ChangeDirHome => "ChangeDirHome",
            Action::ChangeDirRoot => "ChangeDirRoot",
            Action::ChangeDirAndExit => "ChangeDirAndExit",
            Action::CursorUp => "CursorUp",
            Action::CursorDown => "CursorDown",
            Action::CursorUpScreen => "CursorUpScreen",
            Action::CursorDownScreen => "CursorDownScreen",
            Action::CursorTop => "CursorTop",
            Action::CursorBottom => "CursorBottom",
            Action::EraseSearchChar => "EraseSearchChar",
            Action::ClearSearch => "ClearSearch",
            Action::ChangeFilterSearchMode => "ChangeFilterSearchMode",
            Action::ChangeCaseSensitiveMode => "ChangeCaseSensitiveMode",
            Action::ChangeGapSearchMode => "ChangeGapSearchMode",
            Action::ChangeSortMode => "ChangeSortMode",
            Action::RefreshListing => "RefreshListing",
            Action::Help => "Help",
            Action::Exit => "Exit",
            Action::ExitWithoutCd => "ExitWithoutCd",
            Action::Unbind => "None",
        }
    }

    /// All actions, in the order in which they are declared.
    pub fn all() -> (r: Vec<Action>)
        ensures
            r@ == all_actions(),
    {
        let r = vec![
            Action::ChangeDir,
            Action::ChangeDirParent,
            Action::ChangeDirHome,
            Action::ChangeDirRoot,
            Action::ChangeDirAndExit,
            Action::CursorUp,
            Action::CursorDown,
            Action::CursorUpScreen,
            Action::CursorDownScreen,
            Action::CursorTop,
            Action::CursorBottom,
            Action::EraseSearchChar,
            Action::ClearSearch,
            Action::ChangeFilterSearchMode,
            Action::ChangeCaseSensitiveMode,
            Action::ChangeGapSearchMode,
            Action::ChangeSortMode,
            Action::RefreshListing,
            Action::Help,
            Action::Exit,
            Action::ExitWithoutCd,
            Action::Unbind,
        ];
        assert(r@ =~= all_actions());
        r
    }

    /// The action with the given name; none if no action has that name.
    pub fn from_name(s: &str) -> (r: Option<Action>)
        ensures
            r == action_named(s@),
    {
        let all = Action::all();
        let mut i: usize = 0;
        while i < all.len()
            invariant
                all@ == all_actions(),
                0 <= i <= all@.len(),
                action_named(s@) == action_named_from(s@, i as int),
            decreases all@.len() - i,
        {
            if str_eq(all[i].name(), s) {
                return Some(all[i]);
            }
            i = i + 1;
        }
        Option::None
    }
}

/// An extra condition on a key mapping, like "this only applies when searching".
#[derive(Debug, PartialEq, Eq, Structural, Clone, Copy, Hash)]
pub enum ActionContext {
    /// The mapping applies if no other condition applies (written `None`).
    NoContext,
    /// The mapping only applies when searching.
    Searching,
    /// The mapping only applies when not searching.
    NotSearching,
}

/// All contexts, in the order in which they are declared.
pub open spec fn all_contexts() -> Seq<ActionContext> {
    seq![ActionContext::NoContext, ActionContext::Searching, ActionContext::NotSearching]
}

/// The name of a context, as it is written in a key mapping.
pub open spec fn context_name(c: ActionContext) -> &'static str {
    match c {
        ActionContext::NoContext => "None",
        ActionContext::Searching => "Searching",
        ActionContext::NotSearching => "NotSearching",
    }
}

/// The description of a context, used in the output of `--help`.
pub open spec fn context_description(c: ActionContext) -> &'static str {
    match c {
        ActionContext::NoContext => "This mapping applies if no other context applies. This is the behavior if no context is specified: the mapping 'key-combination:action' is equivalent to 'key-combination:None:action'.",
        ActionContext::Searching => "This mapping only applies while searching (at least one search character has been given).",
        ActionContext::NotSearching => "This mapping only applies while not searching.",
    }
}

/// A short description of a context, used in the help screen.
pub open spec fn context_short_description(c: ActionContext) -> &'static str {
    match c {
        ActionContext::NoContext => "no context",
        ActionContext::Searching => "when searching",
        ActionContext::NotSearching => "when not searching",
    }
}

/// The context whose name is `s`, if there is one.
pub open spec fn context_named(s: Seq<char>) -> Option<ActionContext> {
    if "None"@ == s {
        Some(ActionContext::NoContext)
    } else if "Searching"@ == s {
        Some(ActionContext::Searching)
    } else if "NotSearching"@ == s {
        Some(ActionContext::NotSearching)
    } else {
        Option::None
    }
}

impl ActionContext {
    /// The description of this context, used in the output of `--help`.
    pub fn description(&self) -> (r: &'static str)
        ensures
            r == context_description(*self),
    {
        match self {
            ActionContext::NoContext => "This mapping applies if no other context applies. This is the behavior if no context is specified: the mapping 'key-combination:action' is equivalent to 'key-combination:None:action'.",
            ActionContext::Searching => "This mapping only applies while searching (at least one search character has been given).",
            ActionContext::NotSearching => "This mapping only applies while not searching.",
        }
    }

    /// A short description of this context, used in the help screen.
    pub fn short_description(&self) -> (r: &'static str)
        ensures
            r == context_short_description(*self),
    {
        match self {
            ActionContext::NoContext => "no context",
            ActionContext::Searching => "when searching",
            ActionContext::NotSearching => "when not searching",
        }
    }

    /// The name of this context, as it is written in a key mapping.
    pub fn name(&self) -> (r: &'static str)
        ensures
            r == context_name(*self),
    {
        match self {
            ActionContext::NoContext => "None",
            ActionContext::Searching => "Searching",
            ActionContext::NotSearching => "NotSearching",
        }
    }

    /// All contexts, in the order in which they are declared.
    pub fn all() -> (r: Vec<ActionContext>)
        ensures
            r@ == all_contexts(),
    {
        let r = vec![ActionContext::NoContext, ActionContext::Searching, ActionContext::NotSearching];
        assert(r@ =~= all_contexts());
        r
    }

    /// The context with the given name; none if no context has that name.
    pub fn from_name(s: &str) -> (r: Option<ActionContext>)
        ensures
            r == context_named(s@),
    {
        if str_eq("None", s) {
            Some(ActionContext::NoContext)
        } else if str_eq("Searching", s) {
            Some(ActionContext::Searching)
        } else if str_eq("NotSearching", s) {
            Some(ActionContext::NotSearching)
        } else {
            None
        }
    }
}

} // verus!
