//! The way from an encrypted connection to a session: the challenge, then the greeting. Whoever does
//! not answer the challenge does not get to greet.
use crate::protocol::{Hello, MSG_AUTH_RESPONSE, MSG_HELLO};
use crate::security::{
    answer_to, every_message_gets_its_verdict, client_mac, client_nonce, server_handshake, server_mac, Credentials, HandshakeError,
    Secrets, Verdict, MAC_LEN, NONCE_LEN,
};
use crate::session::{accept_hello, greeting, is_greeting, HelloError};
use crate::wire::{both_versions_are_accepted, first_hello_layout, hello_layout};
use vstd::prelude::*;

verus! {

/// How far a connection has come.
pub enum Progress {
    Challenged { nonce: Seq<u8> },
    Paired,
    Greeted { hello: Hello },
    Over,
}

/// How far a connection has come.
pub enum Link {
    /// The tablet was sent this random number.
    Challenged { nonce: Vec<u8> },
    /// The tablet knows the pairing code.
    Paired,
    /// The tablet said what it is and what it wants to be used as.
    Greeted { hello: Hello },
    /// There is nothing more to say.
    Over,
}

impl View for Link {
    type V = Progress;

    open spec fn view(&self) -> Progress {
        match self {
            Link::Challenged { nonce } => Progress::Challenged { nonce: nonce@ },
            Link::Paired => Progress::Paired,
            Link::Greeted { hello } => Progress::Greeted { hello: *hello },
            Link::Over => Progress::Over,
        }
    }
}

/// Why a connection is closed.
#[derive(Clone, Copy, Debug, PartialEq, Eq, Structural)]
pub enum Refusal {
    Handshake(HandshakeError),
    Greeting(HelloError),
}

impl Refusal {
    /// What the refusal is called in a log.
    pub open spec fn text(self) -> Seq<char> {
        match self {
            Refusal::Handshake(e) => e.text(),
            Refusal::Greeting(e) => e.text(),
        }
    }

    /// The refusal in words.
    pub fn message(&self) -> (r: String)
        ensures
            r@ == self.text(),
    {
        match self {
            Refusal::Handshake(e) => e.message(),
            Refusal::Greeting(e) => e.message(),
        }
    }
}

/// What a message does to a connection.
pub struct Moved {
    pub link: Link,
    /// The frame that goes back.
    pub reply: Option<Vec<u8>>,
    /// Why the connection is closed, where that is not simply because all was said.
    pub refusal: Option<Refusal>,
}

/// What the server answers in the challenge `nonce`.
pub open spec fn challenge_answer(
    secrets: Secrets,
    nonce: Seq<u8>,
    ty: u8,
    payload: Seq<u8>,
    hostname: Seq<char>,
) -> (Verdict, Option<Seq<u8>>) {
    answer_to(
        ty,
        payload,
        hostname,
        client_mac(secrets, nonce, client_nonce(payload)),
        server_mac(secrets, nonce, client_nonce(payload)),
    )
}

/// How far a connection has come after a message.
pub open spec fn progress_after(
    secrets: Secrets,
    at: Progress,
    ty: u8,
    payload: Seq<u8>,
    hostname: Seq<char>,
) -> Progress {
    match at {
        Progress::Challenged { nonce } => if challenge_answer(
            secrets,
            nonce,
            ty,
            payload,
            hostname,
        ).0 is Paired {
            Progress::Paired
        } else {
            Progress::Over
        },
        Progress::Paired => match greeting(ty, payload) {
            Ok(hello) => Progress::Greeted { hello },
            Err(_) => Progress::Over,
        },
        _ => at,
    }
}

/// The frame that goes back for a message.
pub open spec fn reply_to(
    secrets: Secrets,
    at: Progress,
    ty: u8,
    payload: Seq<u8>,
    hostname: Seq<char>,
) -> Option<Seq<u8>> {
    match at {
        Progress::Challenged { nonce } => challenge_answer(
            secrets,
            nonce,
            ty,
            payload,
            hostname,
        ).1,
        _ => None,
    }
}

/// Why a message closes the connection.
pub open spec fn refusal_of(
    secrets: Secrets,
    at: Progress,
    ty: u8,
    payload: Seq<u8>,
    hostname: Seq<char>,
) -> Option<Refusal> {
    match at {
        Progress::Challenged { nonce } => match challenge_answer(
            secrets,
            nonce,
            ty,
            payload,
            hostname,
        ).0 {
            Verdict::Refused(e) => Some(Refusal::Handshake(e)),
            _ => None,
        },
        Progress::Paired => match greeting(ty, payload) {
            Ok(_) => None,
            Err(e) => Some(Refusal::Greeting(e)),
        },
        _ => None,
    }
}

impl Link {
    /// Takes a message of the peer.
    pub fn advance(self, creds: &Credentials, ty: u8, payload: &[u8], hostname: &str) -> (r: Moved)
        ensures
            r.link@ == progress_after(creds@, self@, ty, payload@, hostname@),
            match r.reply {
                Some(f) => reply_to(creds@, self@, ty, payload@, hostname@) == Some(f@),
                None => reply_to(creds@, self@, ty, payload@, hostname@) is None,
            },
            r.refusal == refusal_of(creds@, self@, ty, payload@, hostname@),
    {
        match self {
            Link::Challenged { nonce } => {
                let answer = server_handshake(creds, nonce.as_slice(), ty, payload, hostname);
                match answer.verdict {
                    Verdict::Paired => Moved {
                        link: Link::Paired,
                        reply: answer.reply,
                        refusal: None,
                    },
                    Verdict::Probe => Moved {
                        link: Link::Over,
                        reply: answer.reply,
                        refusal: None,
                    },
                    Verdict::Refused(e) => Moved {
                        link: Link::Over,
                        reply: answer.reply,
                        refusal: Some(Refusal::Handshake(e)),
                    },
                }
            },
            Link::Paired => match accept_hello(ty, payload) {
                Ok(hello) => Moved { link: Link::Greeted { hello }, reply: None, refusal: None },
                Err(e) => Moved {
                    link: Link::Over,
                    reply: None,
                    refusal: Some(Refusal::Greeting(e)),
                },
            },
            Link::Greeted { hello } => Moved {
                link: Link::Greeted { hello },
                reply: None,
                refusal: None,
            },
            Link::Over => Moved { link: Link::Over, reply: None, refusal: None },
        }
    }
}

/// How far a connection has come after the first `n` messages.
pub open spec fn progress_after_all(
    secrets: Secrets,
    at: Progress,
    messages: Seq<(u8, Seq<u8>)>,
    hostname: Seq<char>,
    n: int,
) -> Progress
    decreases n,
{
    if n <= 0 {
        at
    } else {
        progress_after(
            secrets,
            progress_after_all(secrets, at, messages, hostname, n - 1),
            messages[n - 1].0,
            messages[n - 1].1,
            hostname,
        )
    }
}

/// Whether a message proves that its sender knows the pairing code.
pub open spec fn proves_pairing(
    secrets: Secrets,
    nonce: Seq<u8>,
    message: (u8, Seq<u8>),
) -> bool {
    &&& message.0 == MSG_AUTH_RESPONSE
    &&& message.1.len() == NONCE_LEN + MAC_LEN
    &&& message.1.skip(NONCE_LEN as int) == client_mac(secrets, nonce, client_nonce(message.1))
}

proof fn lemma_steps(
    secrets: Secrets,
    nonce: Seq<u8>,
    messages: Seq<(u8, Seq<u8>)>,
    hostname: Seq<char>,
    n: int,
)
    requires
        0 <= n <= messages.len(),
    ensures
        ({
            let at = progress_after_all(
                secrets,
                Progress::Challenged { nonce },
                messages,
                hostname,
                n,
            );
            &&& at is Challenged ==> n == 0
            &&& at is Paired ==> n == 1 && proves_pairing(secrets, nonce, messages[0])
            &&& at matches Progress::Greeted { hello } ==> n >= 2 && proves_pairing(
                secrets,
                nonce,
                messages[0],
            ) && greeting(messages[1].0, messages[1].1) == Ok::<Hello, HelloError>(hello)
        }),
    decreases n,
{
    if n > 0 {
        lemma_steps(secrets, nonce, messages, hostname, n - 1);
    }
}

/// Only a paired tablet gets in: whatever is sent on a connection, it leads to a session only if the
/// first message proves that the sender knows the pairing code and the second is a greeting in a
/// version of the protocol that the server knows.
pub proof fn only_paired_tablets_get_in(
    secrets: Secrets,
    nonce: Seq<u8>,
    messages: Seq<(u8, Seq<u8>)>,
    hostname: Seq<char>,
)
    requires
        progress_after_all(
            secrets,
            Progress::Challenged { nonce },
            messages,
            hostname,
            messages.len() as int,
        ) is Greeted,
    ensures
        messages.len() >= 2,
        proves_pairing(secrets, nonce, messages[0]),
        messages[1].0 == MSG_HELLO,
        is_greeting(messages[1].1),
{
    lemma_steps(secrets, nonce, messages, hostname, messages.len() as int);
}

/// A paired tablet that greets does get in.
pub proof fn paired_tablets_get_in(
    secrets: Secrets,
    nonce: Seq<u8>,
    answer: (u8, Seq<u8>),
    hello: (u8, Seq<u8>),
    hostname: Seq<char>,
)
    requires
        proves_pairing(secrets, nonce, answer),
        hello.0 == MSG_HELLO,
        is_greeting(hello.1),
    ensures
        progress_after_all(
            secrets,
            Progress::Challenged { nonce },
            seq![answer, hello],
            hostname,
            2,
        ) == (Progress::Greeted { hello: crate::protocol::hello_at(hello.1) }),
{
    reveal_with_fuel(progress_after_all, 3);
}

/// A refusal is called what its cause is called.
pub proof fn refusals_are_called_by_their_cause(e: HandshakeError, g: HelloError)
    ensures
        Refusal::Handshake(e).text() == e.text(),
        Refusal::Greeting(g).text() == g.text(),
{
}

/// A challenge is passed by the answer that proves the pairing and by nothing else, and a paired
/// tablet goes on by a greeting and by nothing else: whatever else is said ends the connection. A
/// connection that has come to a session or to its end stays there.
pub proof fn connections_go_forward_or_end(
    secrets: Secrets,
    nonce: Seq<u8>,
    hello: Hello,
    ty: u8,
    payload: Seq<u8>,
    hostname: Seq<char>,
)
    ensures
        progress_after(secrets, Progress::Challenged { nonce }, ty, payload, hostname) == (if ty
            == 7 && payload.len() == 48 && payload.subrange(16, 48) == client_mac(
            secrets,
            nonce,
            payload.take(16),
        ) {
            Progress::Paired
        } else {
            Progress::Over
        }),
        progress_after(secrets, Progress::Paired, ty, payload, hostname) is Greeted || progress_after(
            secrets,
            Progress::Paired,
            ty,
            payload,
            hostname,
        ) is Over,
        ty != 1 ==> progress_after(secrets, Progress::Paired, ty, payload, hostname) is Over,
        progress_after(secrets, Progress::Greeted { hello }, ty, payload, hostname)
            == (Progress::Greeted { hello }),
        progress_after(secrets, Progress::Over, ty, payload, hostname) == Progress::Over,
{
    if payload.len() == 48 {
        assert(payload.skip(NONCE_LEN as int) =~= payload.subrange(16, 48));
    }
}

/// A connection that ends says why, unless the peer only asked who is there; one that goes on has
/// nothing to say against the peer.
pub proof fn connections_end_for_a_reason(
    secrets: Secrets,
    at: Progress,
    ty: u8,
    payload: Seq<u8>,
    hostname: Seq<char>,
)
    requires
        at is Challenged || at is Paired,
    ensures
        refusal_of(secrets, at, ty, payload, hostname) is None <==> !(progress_after(
            secrets,
            at,
            ty,
            payload,
            hostname,
        ) is Over) || at is Challenged && ty == 6,
        at is Challenged ==> (refusal_of(secrets, at, ty, payload, hostname) matches Some(e)
            ==> e is Handshake),
        at is Paired ==> (refusal_of(secrets, at, ty, payload, hostname) matches Some(e)
            ==> e is Greeting && greeting(ty, payload) == Err::<Hello, HelloError>(e->Greeting_0)),
{
}

/// Only an answer to the challenge is replied to, and the question who is there. The reply is the
/// server's own code where the peer is paired and goes on, and says that the code does not match
/// where an answer of the right form is refused.
pub proof fn replies_follow_the_challenge_alone(
    secrets: Secrets,
    at: Progress,
    ty: u8,
    payload: Seq<u8>,
    hostname: Seq<char>,
)
    requires
        vstd::utf8::encode_utf8(hostname).len() < 0x1_0000_0000,
        at matches Progress::Challenged { nonce } ==> server_mac(
            secrets,
            nonce,
            payload.take(16),
        ).len() < 0x1_0000_0000,
    ensures
        !(at is Challenged) ==> reply_to(secrets, at, ty, payload, hostname) is None,
        at matches Progress::Challenged { nonce } ==> {
            let reply = reply_to(secrets, at, ty, payload, hostname);
            let paired = progress_after(secrets, at, ty, payload, hostname) is Paired;
            &&& ty == 6 ==> (reply matches Some(f) && f[0] == 6 && vstd::utf8::decode_utf8(
                f.skip(5),
            ) == hostname)
            &&& paired ==> (reply matches Some(f) && f[0] == 0x87 && f.skip(5) == server_mac(
                secrets,
                nonce,
                payload.take(16),
            ))
            &&& ty == 7 && payload.len() == 48 && !paired ==> (reply matches Some(f) && f[0]
                == 0x88 && vstd::utf8::decode_utf8(f.skip(5)) == "pairing code mismatch"@)
            &&& ty != 6 && ty != 7 ==> reply is None
            &&& ty == 7 && payload.len() != 48 ==> reply is None
        },
{
    if let Progress::Challenged { nonce } = at {
        every_message_gets_its_verdict(
            ty,
            payload,
            hostname,
            client_mac(secrets, nonce, client_nonce(payload)),
            server_mac(secrets, nonce, client_nonce(payload)),
        );
    }
}

/// A tablet with the token, which draws a number, sends it with its authentication code, and then
/// greets in either version of the protocol, is in a session with what it said of itself.
pub proof fn a_tablet_with_the_token_gets_its_session(
    secrets: Secrets,
    nonce: Seq<u8>,
    drawn: Seq<u8>,
    hello: Hello,
    hostname: Seq<char>,
)
    requires
        drawn.len() == 16,
        client_mac(secrets, nonce, drawn).len() == 32,
    ensures
        hello.version == 2 ==> progress_after_all(
            secrets,
            Progress::Challenged { nonce },
            seq![
                (0x07u8, drawn + client_mac(secrets, nonce, drawn)),
                (0x01u8, hello_layout(hello)),
            ],
            hostname,
            2,
        ) == (Progress::Greeted { hello }),
        hello.version == 1 ==> progress_after_all(
            secrets,
            Progress::Challenged { nonce },
            seq![
                (0x07u8, drawn + client_mac(secrets, nonce, drawn)),
                (0x01u8, first_hello_layout(hello)),
            ],
            hostname,
            2,
        ) == (Progress::Greeted { hello: Hello { mode: 0, audio: 0, ..hello } }),
{
    let answer = drawn + client_mac(secrets, nonce, drawn);
    assert(answer.take(16) =~= drawn);
    assert(answer.subrange(16, 48) =~= client_mac(secrets, nonce, drawn));
    both_versions_are_accepted(hello);
    connections_go_forward_or_end(secrets, nonce, hello, 7, answer, hostname);
    reveal_with_fuel(progress_after_all, 3);
}

} // verus!
