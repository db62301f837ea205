//! Notifications that come in by webhook: what a payload holds, what is done
//! with each of its embeds, and what the sender is told.

use crate::dink::{parse_loot_text, parsed_loot, DinkDrop, DropEvent, ParseError};
use crate::text::{extend_str, string_of};
use vstd::prelude::*;

verus! {

/// What a webhook delivers, as far as it is read.
#[derive(Debug, Clone)]
pub struct WebhookPayload {
    /// The kind of event.
    pub kind: String,
    pub player_name: String,
    pub account_type: Option<String>,
    pub dink_account_hash: String,
    pub clan_name: Option<String>,
    pub seasonal_world: bool,
    pub world: i32,
    pub region_id: i32,
    pub embeds: Vec<Embed>,
}

/// One embed of a payload; the description holds the notification.
#[derive(Debug, Clone)]
pub struct Embed {
    pub title: String,
    pub description: String,
    pub author: Option<EmbedAuthor>,
    pub color: Option<i32>,
    pub thumbnail: Option<EmbedThumbnail>,
    pub fields: Option<Vec<EmbedField>>,
    pub footer: Option<EmbedFooter>,
    pub timestamp: Option<String>,
}

#[derive(Debug, Clone)]
pub struct EmbedAuthor {
    pub name: String,
    pub icon_url: Option<String>,
    pub url: Option<String>,
}

#[derive(Debug, Clone)]
pub struct EmbedThumbnail {
    pub url: String,
}

#[derive(Debug, Clone)]
pub struct EmbedField {
    pub name: String,
    pub value: String,
    pub inline: Option<bool>,
}

#[derive(Debug, Clone)]
pub struct EmbedFooter {
    pub text: String,
    pub icon_url: Option<String>,
}

/// What the sender of a webhook is told.
#[derive(Debug, Clone)]
pub struct WebhookResponse {
    pub status: String,
    pub message: String,
}

/// What happened to a request.
#[derive(Debug, Clone, Copy, PartialEq, Eq, Structural)]
pub enum WebhookEvent {
    /// The payload was read and handed on.
    Received,
    /// The payload could not be read.
    InvalidPayload,
    /// The payload was read but could not be handed on.
    ForwardFailed,
    /// The request held no payload.
    MissingPayload,
    /// The request asked whether the server runs.
    HealthCheck,
}

/// What is to be done with one embed.
#[derive(Debug, Clone)]
pub enum WebhookAction {
    /// The embed reports this drop, which is to be credited.
    Process(DinkDrop),
    /// The embed reports no drop; this text is to be posted instead.
    Report(String),
}

/// The text that is posted for an embed that reports no drop.
pub open spec fn report_text(player_name: Seq<char>, kind: Seq<char>, description: Seq<char>) -> Seq<
    char,
> {
    "**New Event from "@ + player_name + "**\nType: "@ + kind + "\n\n"@ + description
}

/// The status code that answers `event`.
pub open spec fn status_code(event: WebhookEvent) -> u16 {
    match event {
        WebhookEvent::Received => 200,
        WebhookEvent::InvalidPayload => 400,
        WebhookEvent::ForwardFailed => 500,
        WebhookEvent::MissingPayload => 400,
        WebhookEvent::HealthCheck => 200,
    }
}

/// The status word that answers `event`.
pub open spec fn status_word(event: WebhookEvent) -> Seq<char> {
    match event {
        WebhookEvent::Received => "success"@,
        WebhookEvent::HealthCheck => "success"@,
        _ => "error"@,
    }
}

/// The message that answers `event`.
pub open spec fn status_message(event: WebhookEvent) -> Seq<char> {
    match event {
        WebhookEvent::Received => "Webhook received"@,
        WebhookEvent::InvalidPayload => "Invalid payload format"@,
        WebhookEvent::ForwardFailed => "Failed to process webhook"@,
        WebhookEvent::MissingPayload => "Missing payload_json field"@,
        WebhookEvent::HealthCheck => "Webhook server is running"@,
    }
}

/// The status code and the response that answer `event`.
pub fn webhook_reply(event: WebhookEvent) -> (reply: (u16, WebhookResponse))
    ensures
        reply.0 == status_code(event),
        reply.1.status@ == status_word(event),
        reply.1.message@ == status_message(event),
{
    let (code, status, message): (u16, &str, &str) = match event {
        WebhookEvent::Received => (200, "success", "Webhook received"),
        WebhookEvent::InvalidPayload => (400, "error", "Invalid payload format"),
        WebhookEvent::ForwardFailed => (500, "error", "Failed to process webhook"),
        WebhookEvent::MissingPayload => (400, "error", "Missing payload_json field"),
        WebhookEvent::HealthCheck => (200, "success", "Webhook server is running"),
    };
    (code, WebhookResponse { status: status.to_owned(), message: message.to_owned() })
}

/// What is to be done with the embed `embed` of `payload`: its drop is to be
/// credited where its description reports one, else a report is posted.
pub fn webhook_action(payload: &WebhookPayload, embed: &Embed) -> (action: WebhookAction)
    ensures
        match action {
            WebhookAction::Process(drop) => parsed_loot(embed.description@) == Ok::<
                DropEvent,
                ParseError,
            >(drop@),
            WebhookAction::Report(text) => parsed_loot(embed.description@) is Err && text@
                == report_text(payload.player_name@, payload.kind@, embed.description@),
        },
{
    match parse_loot_text(embed.description.as_str()) {
        Ok(drop) => WebhookAction::Process(drop),
        Err(_) => {
            let mut out: Vec<char> = Vec::new();
            extend_str(&mut out, "**New Event from ");
            extend_str(&mut out, payload.player_name.as_str());
            extend_str(&mut out, "**\nType: ");
            extend_str(&mut out, payload.kind.as_str());
            extend_str(&mut out, "\n\n");
            extend_str(&mut out, embed.description.as_str());
            assert(out@ =~= report_text(
                payload.player_name@,
                payload.kind@,
                embed.description@,
            ));
            WebhookAction::Report(string_of(out.as_slice()))
        },
    }
}

/// What is to be done with each embed of `payload`, in order.
pub fn process_webhook(payload: &WebhookPayload) -> (actions: Vec<WebhookAction>)
    ensures
        actions.len() == payload.embeds.len(),
        forall|i: int|
            0 <= i < actions.len() ==> match #[trigger] actions[i] {
                WebhookAction::Process(drop) => parsed_loot(payload.embeds[i].description@) == Ok::<
                    DropEvent,
                    ParseError,
                >(drop@),
                WebhookAction::Report(text) => parsed_loot(payload.embeds[i].description@) is Err
                    && text@ == report_text(
                    payload.player_name@,
                    payload.kind@,
                    payload.embeds[i].description@,
                ),
            },
{
    let mut actions: Vec<WebhookAction> = Vec::new();
    let mut i: usize = 0;
    while i < payload.embeds.len()
        invariant
            i <= payload.embeds.len(),
            actions.len() == i,
            forall|j: int|
                0 <= j < i ==> match #[trigger] actions[j] {
                    WebhookAction::Process(drop) => parsed_loot(payload.embeds[j].description@)
                        == Ok::<DropEvent, ParseError>(drop@),
                    WebhookAction::Report(text) => parsed_loot(payload.embeds[j].description@) is Err
                        && text@ == report_text(
                        payload.player_name@,
                        payload.kind@,
                        payload.embeds[j].description@,
                    ),
                },
        decreases payload.embeds.len() - i,
    {
        actions.push(webhook_action(payload, &payload.embeds[i]));
        i += 1;
    }
    actions
}

} // verus!
