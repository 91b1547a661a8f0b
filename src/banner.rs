//! The state of a dismissible error banner: its message, size and whether it
//! offers a dismiss button.

use vstd::prelude::*;

verus! {

/// How large a banner is drawn.
#[derive(Clone, Copy, Debug, PartialEq, Eq, Structural)]
pub enum ErrorBannerSize {
    Small,
    Medium,
    Large,
}

/// A banner that shows an error message until it is dismissed.
pub struct ErrorBanner {
    message: Option<String>,
    size: ErrorBannerSize,
    dismiss_button: bool,
}

impl ErrorBanner {
    /// The message shown, none once dismissed.
    pub closed spec fn message_spec(&self) -> Option<Seq<char>> {
        match self.message {
            Some(m) => Some(m@),
            None => None,
        }
    }

    pub closed spec fn size_spec(&self) -> ErrorBannerSize {
        self.size
    }

    pub closed spec fn dismissable_spec(&self) -> bool {
        self.dismiss_button
    }

    /// A medium banner showing `text`, without a dismiss button.
    pub fn new(text: &str) -> (r: ErrorBanner)
        ensures
            r.message_spec() == Some(text@),
            r.size_spec() == ErrorBannerSize::Medium,
            !r.dismissable_spec(),
    {
        broadcast use vstd::string::to_string_from_display_ensures_for_str;

        ErrorBanner { message: Some(text.to_string()), size: ErrorBannerSize::Medium, dismiss_button: false }
    }

    /// The same banner, with a dismiss button.
    pub fn dismissable(self) -> (r: ErrorBanner)
        ensures
            r.message_spec() == self.message_spec(),
            r.size_spec() == self.size_spec(),
            r.dismissable_spec(),
    {
        let mut b = self;
        b.dismiss_button = true;
        b
    }

    /// The same banner, small.
    pub fn small(self) -> (r: ErrorBanner)
        ensures
            r.message_spec() == self.message_spec(),
            r.size_spec() == ErrorBannerSize::Small,
            r.dismissable_spec() == self.dismissable_spec(),
    {
        let mut b = self;
        b.size = ErrorBannerSize::Small;
        b
    }

    /// The same banner, medium.
    pub fn medium(self) -> (r: ErrorBanner)
        ensures
            r.message_spec() == self.message_spec(),
            r.size_spec() == ErrorBannerSize::Medium,
            r.dismissable_spec() == self.dismissable_spec(),
    {
        let mut b = self;
        b.size = ErrorBannerSize::Medium;
        b
    }

    /// The same banner, large.
    pub fn large(self) -> (r: ErrorBanner)
        ensures
            r.message_spec() == self.message_spec(),
            r.size_spec() == ErrorBannerSize::Large,
            r.dismissable_spec() == self.dismissable_spec(),
    {
        let mut b = self;
        b.size = ErrorBannerSize::Large;
        b
    }

    /// Shows `text` from now on.
    pub fn set_message(&mut self, text: &str)
        ensures
            final(self).message_spec() == Some(text@),
            final(self).size_spec() == old(self).size_spec(),
            final(self).dismissable_spec() == old(self).dismissable_spec(),
    {
        broadcast use vstd::string::to_string_from_display_ensures_for_str;

        self.message = Some(text.to_string());
    }

    /// Hides the banner.
    pub fn dismiss(&mut self)
        ensures
            final(self).message_spec() is None,
            final(self).size_spec() == old(self).size_spec(),
            final(self).dismissable_spec() == old(self).dismissable_spec(),
    {
        self.message = None;
    }

    /// The message shown, if any.
    pub fn message(&self) -> (r: Option<&str>)
        ensures
            match r {
                Some(m) => self.message_spec() == Some(m@),
                None => self.message_spec() is None,
            },
    {
        match &self.message {
            Some(m) => Some(m.as_str()),
            None => None,
        }
    }

    pub fn size(&self) -> (r: ErrorBannerSize)
        ensures
            r == self.size_spec(),
    {
        self.size
    }

    /// Whether the banner offers a dismiss button.
    pub fn is_dismissable(&self) -> (r: bool)
        ensures
            r == self.dismissable_spec(),
    {
        self.dismiss_button
    }
}

} // verus!
