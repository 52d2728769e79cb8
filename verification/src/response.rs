//! What the member gets to see: the answer to an operation, and what each
//! command does with it.

use crate::flow::{Failure, FailureView, Outcome, OutcomeView};
use vstd::prelude::*;
use vstd::string::StringExecFns;

verus! {

/// The rating and tier role of a member, for display.
#[derive(Clone, Copy, Debug, PartialEq, Eq, Structural)]
pub struct RatingCard {
    pub rating: u32,
    pub role_id: u64,
}

/// The answer to an operation.
#[derive(Debug, PartialEq, Eq)]
pub enum Response {
    /// A rich display of the member's rating and tier.
    Embed(RatingCard),
    /// A sentence that anyone may read.
    Sentence(String),
    /// A sentence meant for the member alone.
    PrivateSentence(String),
}

/// A response as plain values.
pub enum ResponseView {
    Embed(RatingCard),
    Sentence(Seq<char>),
    PrivateSentence(Seq<char>),
}

impl View for Response {
    type V = ResponseView;

    open spec fn view(&self) -> ResponseView {
        match self {
            Response::Embed(card) => ResponseView::Embed(*card),
            Response::Sentence(text) => ResponseView::Sentence(text@),
            Response::PrivateSentence(text) => ResponseView::PrivateSentence(text@),
        }
    }
}

/// What a command posts in the channel it was given in.
#[derive(Debug, PartialEq, Eq)]
pub enum Reply {
    /// Nothing is posted.
    Nothing,
    /// A line of text.
    Text(String),
    /// A rich display.
    Card(RatingCard),
}

/// A reply as plain values.
pub enum ReplyView {
    Nothing,
    Text(Seq<char>),
    Card(RatingCard),
}

impl View for Reply {
    type V = ReplyView;

    open spec fn view(&self) -> ReplyView {
        match self {
            Reply::Nothing => ReplyView::Nothing,
            Reply::Text(text) => ReplyView::Text(text@),
            Reply::Card(card) => ReplyView::Card(*card),
        }
    }
}

/// The words before the URL of a challenge.
pub open spec fn link_invitation() -> Seq<char> {
    "Please connect your account using the following link: "@
}

/// The words for a deleted link.
pub open spec fn unlinked_text() -> Seq<char> {
    "User information deleted. Toodles! :wave:"@
}

/// The words for a member who had no link.
pub open spec fn nothing_to_delete_text() -> Seq<char> {
    "I don't see any data to delete:question:"@
}

/// The words for a reconciliation that was asked for directly.
pub open spec fn reconciled_text() -> Seq<char> {
    "Your roles are up to date."@
}

/// The words for a member who is not linked yet.
pub open spec fn not_linked_text() -> Seq<char> {
    "I don't know your lichess account yet. Please link it first by saying `ohnomy account` (or `/link`)."@
}

/// The one sentence for every failure that the member cannot mend.
pub open spec fn internal_error_text() -> Seq<char> {
    "Internal bot error. @teotwaki, I'm scared."@
}

/// The answer to the result of a flow. A success is answered in its own
/// words; a member who is not linked is told to link; every other failure
/// is answered with the same sentence, which gives away nothing.
pub open spec fn response_model(result: Result<OutcomeView, FailureView>) -> ResponseView {
    match result {
        Ok(OutcomeView::ChallengeIssued(url)) => ResponseView::PrivateSentence(link_invitation() + url),
        Ok(OutcomeView::Synced { rating, role_id }) => ResponseView::Embed(RatingCard { rating, role_id }),
        Ok(OutcomeView::Unlinked) => ResponseView::PrivateSentence(unlinked_text()),
        Ok(OutcomeView::NothingToDelete) => ResponseView::PrivateSentence(nothing_to_delete_text()),
        Ok(OutcomeView::Reconciled) => ResponseView::Sentence(reconciled_text()),
        Err(FailureView::NotLinked) => ResponseView::Sentence(not_linked_text()),
        Err(_) => ResponseView::Sentence(internal_error_text()),
    }
}

/// Answers the result of a flow, as [`response_model`] lays down.
pub fn respond(result: &Result<Outcome, Failure>) -> (response: Response)
    ensures
        response@ == response_model(crate::flow::result_view(*result)),
{
    match result {
        Ok(Outcome::ChallengeIssued(url)) => {
            let invitation = String::from_str("Please connect your account using the following link: ");
            Response::PrivateSentence(invitation.concat(url.as_str()))
        },
        Ok(Outcome::Synced { rating, role_id }) => Response::Embed(
            RatingCard { rating: *rating, role_id: *role_id },
        ),
        Ok(Outcome::Unlinked) => Response::PrivateSentence(
            String::from_str("User information deleted. Toodles! :wave:"),
        ),
        Ok(Outcome::NothingToDelete) => Response::PrivateSentence(
            String::from_str("I don't see any data to delete:question:"),
        ),
        Ok(Outcome::Reconciled) => Response::Sentence(String::from_str("Your roles are up to date.")),
        Err(Failure::NotLinked) => Response::Sentence(
            String::from_str(
                "I don't know your lichess account yet. Please link it first by saying `ohnomy account` (or `/link`).",
            ),
        ),
        Err(_) => Response::Sentence(String::from_str("Internal bot error. @teotwaki, I'm scared.")),
    }
}

/// What the unlink command posts: the sentence of the response, private or
/// not; nothing for a rich display.
pub fn gdpr(response: Response) -> (reply: Reply)
    ensures
        reply@ == match response@ {
            ResponseView::PrivateSentence(text) => ReplyView::Text(text),
            ResponseView::Sentence(text) => ReplyView::Text(text),
            ResponseView::Embed(_) => ReplyView::Nothing,
        },
{
    match response {
        Response::PrivateSentence(text) => Reply::Text(text),
        Response::Sentence(text) => Reply::Text(text),
        Response::Embed(_) => Reply::Nothing,
    }
}

/// What the rating command posts: the rich display or the public sentence
/// of the response; nothing for a private sentence.
pub fn rating(response: Response) -> (reply: Reply)
    ensures
        reply@ == match response@ {
            ResponseView::Embed(card) => ReplyView::Card(card),
            ResponseView::Sentence(text) => ReplyView::Text(text),
            ResponseView::PrivateSentence(_) => ReplyView::Nothing,
        },
{
    match response {
        Response::Embed(card) => Reply::Card(card),
        Response::Sentence(text) => Reply::Text(text),
        Response::PrivateSentence(_) => Reply::Nothing,
    }
}

/// What the link command does with a response.
#[derive(Debug, PartialEq, Eq)]
pub enum Delivery {
    /// Send the text to the member directly.
    Direct(String),
    /// Post in the channel.
    Channel(Reply),
}

/// A delivery as plain values.
pub enum DeliveryView {
    Direct(Seq<char>),
    Channel(ReplyView),
}

impl View for Delivery {
    type V = DeliveryView;

    open spec fn view(&self) -> DeliveryView {
        match self {
            Delivery::Direct(text) => DeliveryView::Direct(text@),
            Delivery::Channel(reply) => DeliveryView::Channel(reply@),
        }
    }
}

/// What the link command does with the response: a private sentence goes to
/// the member directly, a public sentence is posted in the channel, and a
/// rich display is dropped.
pub fn account(response: Response) -> (delivery: Delivery)
    ensures
        delivery@ == match response@ {
            ResponseView::PrivateSentence(text) => DeliveryView::Direct(text),
            ResponseView::Sentence(text) => DeliveryView::Channel(ReplyView::Text(text)),
            ResponseView::Embed(_) => DeliveryView::Channel(ReplyView::Nothing),
        },
{
    match response {
        Response::PrivateSentence(text) => Delivery::Direct(text),
        Response::Sentence(text) => Delivery::Channel(Reply::Text(text)),
        Response::Embed(_) => Delivery::Channel(Reply::Nothing),
    }
}

/// The words that follow a delivered direct message.
pub open spec fn check_dms_text() -> Seq<char> {
    "Please check your DMs :)"@
}

/// The words that follow a direct message that could not be delivered.
pub open spec fn allow_dms_text() -> Seq<char> {
    "I wasn't able to send you a DM. Could you please allow me to message you so I can verify your lichess account?"@
}

/// What the link command posts in the channel after it tried to send the
/// member a direct message.
pub fn account_notice(delivered: bool) -> (notice: String)
    ensures
        notice@ == if delivered {
            check_dms_text()
        } else {
            allow_dms_text()
        },
{
    if delivered {
        String::from_str("Please check your DMs :)")
    } else {
        String::from_str(
            "I wasn't able to send you a DM. Could you please allow me to message you so I can verify your lichess account?",
        )
    }
}

/// The help text.
pub open spec fn help_text() -> Seq<char> {
    "Hi, I'm liro!\nI help automate role assignments based on your rating. To get started, please link your lichess account to your Discord user by saying `ohnomy account` (or `/link`)\nAfter that, you can ask me to retrieve your ratings and update your Discord roles by saying `ohnomy rating` (or `/rating`)\nIf you want me to forget everything I know about you, just say `ohnomy gdpr` (or `/unlink`)"@
}

/// What the help command posts.
pub fn help() -> (text: String)
    ensures
        text@ == help_text(),
{
    String::from_str(
        "Hi, I'm liro!\nI help automate role assignments based on your rating. To get started, please link your lichess account to your Discord user by saying `ohnomy account` (or `/link`)\nAfter that, you can ask me to retrieve your ratings and update your Discord roles by saying `ohnomy rating` (or `/rating`)\nIf you want me to forget everything I know about you, just say `ohnomy gdpr` (or `/unlink`)",
    )
}

} // verus!
