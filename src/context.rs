//! The per-request context: fresh loaders for one inbound request, and
//! accessors that build values from what those loaders resolved.
use crate::loader::Loader;
use vstd::prelude::*;

verus! {

/// A wallet address with the Twitter handle registered for it, if any.
#[derive(Clone, PartialEq, Eq, Debug)]
pub struct Wallet {
    pub address: String,
    pub twitter_handle: Option<String>,
}

impl Wallet {
    pub fn new(address: String, twitter_handle: Option<String>) -> (r: Wallet)
        ensures
            r.address == address,
            r.twitter_handle == twitter_handle,
    {
        Wallet { address, twitter_handle }
    }
}

/// The loaders of one request. None shares its cache with another, nor with
/// any other request.
pub struct AppContext {
    /// The Twitter handle of a wallet address.
    pub twitter_handle_loader: Loader<String>,
}

impl AppContext {
    pub closed spec fn wf(&self) -> bool {
        self.twitter_handle_loader.wf()
    }

    /// A context whose loaders have resolved nothing yet.
    pub fn new() -> (r: AppContext)
        ensures
            r.wf(),
            r.twitter_handle_loader.resolved() == Map::<Seq<char>, Seq<String>>::empty(),
            r.twitter_handle_loader.window() == Seq::<Seq<char>>::empty(),
    {
        AppContext { twitter_handle_loader: Loader::new() }
    }

    /// The wallet at `address`, once its handle is resolved: the first
    /// handle found for it, or none. `None` while the handle is not resolved.
    pub fn wallet(&self, address: String) -> (r: Option<Wallet>)
        ensures
            r.is_some() == self.twitter_handle_loader.resolved().contains_key(address@),
            r matches Some(w) ==> w.address == address && match w.twitter_handle {
                Some(h) => self.twitter_handle_loader.resolved()[address@].len() > 0 && h
                    == self.twitter_handle_loader.resolved()[address@][0],
                None => self.twitter_handle_loader.resolved()[address@].len() == 0,
            },
    {
        match self.twitter_handle_loader.cached(&address) {
            None => None,
            Some(handles) => {
                let handle = if handles.len() > 0 {
                    Some(handles[0].clone())
                } else {
                    None
                };
                Some(Wallet::new(address, handle))
            },
        }
    }
}

} // verus!
