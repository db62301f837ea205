use clanwars::webhook::{
    process_webhook, webhook_action, webhook_reply, Embed, EmbedAuthor, EmbedField, EmbedFooter,
    EmbedThumbnail, WebhookAction, WebhookEvent, WebhookPayload,
};

fn embed(description: &str) -> Embed {
    Embed {
        title: "Loot".to_string(),
        description: description.to_string(),
        author: Some(EmbedAuthor { name: "Solo H".to_string(), icon_url: None, url: None }),
        color: Some(1),
        thumbnail: Some(EmbedThumbnail { url: "u".to_string() }),
        fields: Some(vec![EmbedField { name: "n".to_string(), value: "v".to_string(), inline: Some(true) }]),
        footer: Some(EmbedFooter { text: "t".to_string(), icon_url: None }),
        timestamp: None,
    }
}

fn payload(embeds: Vec<Embed>) -> WebhookPayload {
    WebhookPayload {
        kind: "LOOT".to_string(),
        player_name: "Solo H".to_string(),
        account_type: None,
        dink_account_hash: "h".to_string(),
        clan_name: None,
        seasonal_world: false,
        world: 301,
        region_id: 1,
        embeds,
    }
}

#[test]
fn an_embed_with_a_drop_is_processed() {
    let p = payload(vec![embed("Solo H has looted: \n2 x [Bones](u) (1)\nFrom: [Man](u)")]);
    match webhook_action(&p, &p.embeds[0]) {
        WebhookAction::Process(drop) => {
            assert_eq!(drop.user, "Solo H");
            assert_eq!(drop.source, "Man");
            assert_eq!(drop.loots, vec![("Bones".to_string(), 2)]);
        }
        other => panic!("unexpected action {:?}", other),
    }
}

#[test]
fn an_embed_without_a_drop_is_reported() {
    let p = payload(vec![embed("Solo H has died.")]);
    match webhook_action(&p, &p.embeds[0]) {
        WebhookAction::Report(text) => {
            assert_eq!(text, "**New Event from Solo H**\nType: LOOT\n\nSolo H has died.")
        }
        other => panic!("unexpected action {:?}", other),
    }
}

#[test]
fn every_embed_gets_its_action() {
    let p = payload(vec![
        embed("nothing"),
        embed("A has looted: \n1 x [Coins](u)"),
        embed("B has looted: \n"),
    ]);
    let actions = process_webhook(&p);
    assert_eq!(actions.len(), 3);
    assert!(matches!(actions[0], WebhookAction::Report(_)));
    assert!(matches!(actions[1], WebhookAction::Process(_)));
    assert!(matches!(actions[2], WebhookAction::Report(_)));
    assert!(process_webhook(&payload(vec![])).is_empty());
}

#[test]
fn replies_have_code_status_and_message() {
    let cases = [
        (WebhookEvent::Received, 200, "success", "Webhook received"),
        (WebhookEvent::InvalidPayload, 400, "error", "Invalid payload format"),
        (WebhookEvent::ForwardFailed, 500, "error", "Failed to process webhook"),
        (WebhookEvent::MissingPayload, 400, "error", "Missing payload_json field"),
        (WebhookEvent::HealthCheck, 200, "success", "Webhook server is running"),
    ];
    for (event, code, status, message) in cases {
        let (got, response) = webhook_reply(event);
        assert_eq!(got, code);
        assert_eq!(response.status, status);
        assert_eq!(response.message, message);
    }
}
