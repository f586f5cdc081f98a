pub mod menu;
pub mod render_element;
pub mod render_leaf;

use crate::error::Error;
use crate::text::same;
use vstd::prelude::*;
use vstd::string::StringExecFns;

verus! {

/// The extension points of the host. An extension provides one by exporting
/// a function of its name.
#[derive(Debug, Clone, Copy, PartialEq, Eq, Structural, PartialOrd, Ord, Hash)]
pub enum Hook {
    Metadata,
    Menu,
    RenderElement,
    RenderLeaf,
}

/// The hook that a name stands for, if it stands for one. A hook has one
/// name, that of the function that an extension exports to provide it:
/// `metadata`, `menu`, `render_element` or `render_leaf`. No other name
/// stands for a hook, whatever it looks like.
pub open spec fn hook_named(s: Seq<char>) -> Option<Hook> {
    if s == "metadata"@ {
        Some(Hook::Metadata)
    } else if s == "menu"@ {
        Some(Hook::Menu)
    } else if s == "render_element"@ {
        Some(Hook::RenderElement)
    } else if s == "render_leaf"@ {
        Some(Hook::RenderLeaf)
    } else {
        None
    }
}

impl Hook {
    /// The place of the hook in the order of hooks.
    pub open spec fn spec_rank(&self) -> u8 {
        match self {
            Hook::Metadata => 0,
            Hook::Menu => 1,
            Hook::RenderElement => 2,
            Hook::RenderLeaf => 3,
        }
    }

    /// The place of the hook in the order of hooks, from 0.
    #[verifier::when_used_as_spec(spec_rank)]
    pub fn rank(&self) -> (r: u8)
        ensures
            r == self.spec_rank(),
    {
        match self {
            Hook::Metadata => 0,
            Hook::Menu => 1,
            Hook::RenderElement => 2,
            Hook::RenderLeaf => 3,
        }
    }

    /// The name of the function that an extension exports to provide the
    /// hook.
    pub open spec fn spec_name(&self) -> Seq<char> {
        match self {
            Hook::Metadata => "metadata"@,
            Hook::Menu => "menu"@,
            Hook::RenderElement => "render_element"@,
            Hook::RenderLeaf => "render_leaf"@,
        }
    }

    /// The name of the function that an extension exports to provide the
    /// hook.
    pub fn name(&self) -> (s: &'static str)
        ensures
            s@ == self.spec_name(),
    {
        match self {
            Hook::Metadata => "metadata",
            Hook::Menu => "menu",
            Hook::RenderElement => "render_element",
            Hook::RenderLeaf => "render_leaf",
        }
    }

    /// The hook that `s` names. Fails with `UnknownHook` and the name where
    /// it names none.
    pub fn from_str(s: &str) -> (r: Result<Hook, Error>)
        ensures
            match r {
                Ok(hook) => hook_named(s@) == Some(hook),
                Err(e) => {
                    &&& hook_named(s@).is_none()
                    &&& e matches Error::UnknownHook(name)
                    &&& name@ == s@
                },
            },
    {
        if same(s, "metadata") {
            Ok(Hook::Metadata)
        } else if same(s, "menu") {
            Ok(Hook::Menu)
        } else if same(s, "render_element") {
            Ok(Hook::RenderElement)
        } else if same(s, "render_leaf") {
            Ok(Hook::RenderLeaf)
        } else {
            Err(Error::UnknownHook(String::from_str(s)))
        }
    }
}

impl std::str::FromStr for Hook {
    type Err = Error;

    /// The hook that `s` names. Fails with `UnknownHook` and the name where
    /// it names none.
    fn from_str(s: &str) -> (r: Result<Hook, Error>)
        ensures
            match r {
                Ok(hook) => hook_named(s@) == Some(hook),
                Err(e) => {
                    &&& hook_named(s@).is_none()
                    &&& e matches Error::UnknownHook(name)
                    &&& name@ == s@
                },
            },
    {
        Hook::from_str(s)
    }
}

/// A name stands for a hook exactly when it is the name of the function
/// that provides the hook: every hook is found again by its name, and no
/// other name leads to it.
pub proof fn lemma_name_names_hook(hook: Hook)
    ensures
        hook_named(hook.spec_name()) == Some(hook),
        forall|s: Seq<char>| hook_named(s) == Some(hook) <==> s == hook.spec_name(),
{
    reveal_strlit("metadata");
    reveal_strlit("menu");
    reveal_strlit("render_element");
    reveal_strlit("render_leaf");
    assert("metadata"@.len() == 8);
    assert("menu"@.len() == 4);
    assert("render_element"@.len() == 14);
    assert("render_leaf"@.len() == 11);
}

} // verus!
