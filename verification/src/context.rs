use vstd::prelude::*;

verus! {

/// The abstract content of a [`ChangeContext`]: the value on its way into
/// the store, the key that changed (`None` for a whole-value change) and
/// whether a hook has cancelled the change.
pub struct ContextView<T> {
    pub value: T,
    pub changed_key: Option<Seq<char>>,
    pub aborted: bool,
}

/// The view of an optional owned key.
pub open spec fn opt_string_view(key: Option<String>) -> Option<Seq<char>> {
    match key {
        Some(k) => Some(k@),
        None => None,
    }
}

/// What a set hook or a notify hook sees of a pending change. A hook may
/// rewrite the value or abort the change.
pub struct ChangeContext<T> {
    value: T,
    changed_key: Option<String>,
    aborted: bool,
}

/// The context handed to hooks that run before a value is written.
pub type SetContext<T> = ChangeContext<T>;

/// The context handed to hooks that run before listeners are notified.
pub type NotifyContext<T> = ChangeContext<T>;

impl<T> View for ChangeContext<T> {
    type V = ContextView<T>;

    closed spec fn view(&self) -> ContextView<T> {
        ContextView {
            value: self.value,
            changed_key: opt_string_view(self.changed_key),
            aborted: self.aborted,
        }
    }
}

impl<T> ChangeContext<T> {
    /// A fresh, not yet aborted context for `value`.
    pub fn new(value: T, changed_key: Option<String>) -> (ctx: Self)
        ensures
            ctx@ == (ContextView { value, changed_key: opt_string_view(changed_key), aborted: false }),
    {
        ChangeContext { value, changed_key, aborted: false }
    }

    /// The value the change would store.
    pub fn value(&self) -> (v: &T)
        ensures
            *v == self@.value,
    {
        &self.value
    }

    /// Mutable access to the pending value, for hooks that transform it.
    pub fn value_mut(&mut self) -> (v: &mut T)
        ensures
            *v == old(self)@.value,
            final(self)@ == (ContextView { value: *final(v), ..old(self)@ }),
    {
        &mut self.value
    }

    /// The key that changed, or `None` when the whole value changed.
    pub fn changed_key(&self) -> (k: Option<&str>)
        ensures
            match k {
                Some(s) => self@.changed_key == Some(s@),
                None => self@.changed_key is None,
            },
    {
        match &self.changed_key {
            Some(key) => Some(key.as_str()),
            None => None,
        }
    }

    /// Cancel the change.
    pub fn abort(&mut self)
        ensures
            final(self)@ == (ContextView { aborted: true, ..old(self)@ }),
    {
        self.aborted = true;
    }

    /// Whether a hook has cancelled the change.
    pub fn is_aborted(&self) -> (b: bool)
        ensures
            b == self@.aborted,
    {
        self.aborted
    }

    /// The (possibly rewritten) value and whether the change was cancelled.
    pub fn into_parts(self) -> (parts: (T, bool))
        ensures
            parts.0 == self@.value,
            parts.1 == self@.aborted,
    {
        (self.value, self.aborted)
    }
}

} // verus!
