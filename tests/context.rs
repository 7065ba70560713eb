use holaplex_indexer::context::{AppContext, Wallet};

#[test]
fn wallet_waits_for_its_handle() {
    let mut ctx = AppContext::new();
    assert_eq!(ctx.wallet("W1".to_string()), None);
    assert!(!ctx.twitter_handle_loader.load("W1".to_string()));
    assert!(!ctx.twitter_handle_loader.load("W2".to_string()));
    let keys = ctx.twitter_handle_loader.dispatch();
    ctx.twitter_handle_loader.resolve(&keys, vec![("W1".to_string(), "@holaplex".to_string())]);
    assert_eq!(
        ctx.wallet("W1".to_string()),
        Some(Wallet::new("W1".to_string(), Some("@holaplex".to_string())))
    );
    assert_eq!(ctx.wallet("W2".to_string()), Some(Wallet::new("W2".to_string(), None)));
}

#[test]
fn contexts_do_not_share_caches() {
    let mut a = AppContext::new();
    let b = AppContext::new();
    a.twitter_handle_loader.load("W".to_string());
    let keys = a.twitter_handle_loader.dispatch();
    a.twitter_handle_loader.resolve(&keys, vec![("W".to_string(), "@x".to_string())]);
    assert!(a.wallet("W".to_string()).is_some());
    assert_eq!(b.wallet("W".to_string()), None);
}
