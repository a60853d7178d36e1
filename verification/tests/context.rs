use minuet::context::{ContextStrategy, FullContext};
use minuet::inference::ConversationItem;

#[test]
fn full_context_preserves_every_item_in_order() {
    let committed = [
        ConversationItem::UserText("first".to_owned()),
        ConversationItem::FunctionCallOutput { call_id: "call".to_owned(), output: "result".to_owned() },
    ];

    let prepared = FullContext.prepare(&committed);
    assert_eq!(prepared.len(), 2);
    assert!(matches!(&prepared[0], ConversationItem::UserText(text) if text == "first"));
}
