//! What the daemon's answers must be taken for.

use crate::clamav::{
    cooldown_left, first_database, framed, millis_setting, scanned_status, step_of, verdict_of,
    ActionView, ScanEvent, ScanStage, StatusView, VerdictView,
};
use crate::text::{begins_with, finishes_with, is_white, lemma_trimmed, parsed_unsigned, trimmed};
use crate::text_laws::law_text_is_found_inside;
use vstd::prelude::*;

verus! {

/// The text neither begins nor ends with white space, and is not empty.
pub open spec fn is_tight(s: Seq<char>) -> bool {
    s.len() > 0 && !is_white(s[0]) && !is_white(s.last())
}

proof fn lemma_last_two(answer: Seq<char>)
    ensures
        finishes_with(answer, " OK"@) ==> answer.len() >= 3 && answer[answer.len() - 1] == 'K'
            && answer[answer.len() - 2] == 'O' && answer[answer.len() - 3] == ' ',
        finishes_with(answer, " FOUND"@) ==> answer.len() >= 6 && answer[answer.len() - 1] == 'D'
            && answer[answer.len() - 2] == 'N' && answer[answer.len() - 6] == ' ',
{
    reveal_strlit(" OK");
    reveal_strlit(" FOUND");
    let n = answer.len() as int;
    if finishes_with(answer, " OK"@) {
        let tail = answer.subrange(n - 3, n);
        assert(tail[0] == answer[n - 3] && tail[1] == answer[n - 2] && tail[2] == answer[n - 1]);
    }
    if finishes_with(answer, " FOUND"@) {
        let tail = answer.subrange(n - 6, n);
        assert(tail[0] == answer[n - 6] && tail[4] == answer[n - 2] && tail[5] == answer[n - 1]);
    }
}

proof fn lemma_found(head: Seq<char>)
    requires
        head.len() > 0,
        !is_white(head[0]),
    ensures
        ({
            let answer = head + " FOUND"@;
            &&& trimmed(answer) == answer
            &&& finishes_with(answer, " FOUND"@)
            &&& !finishes_with(answer, " OK"@)
            &&& answer != "OK"@
            &&& answer.take(answer.len() - " FOUND"@.len()) == head
        }),
{
    reveal_strlit(" FOUND");
    reveal_strlit("OK");
    let answer = head + " FOUND"@;
    assert(answer[answer.len() - 1] == 'D');
    assert(answer[0] == head[0]);
    lemma_trimmed(answer);
    lemma_last_two(answer);
    law_text_is_found_inside(head, " FOUND"@, Seq::empty());
    assert(answer.take(answer.len() - 6) =~= head);
}

/// A signature that the daemon found is named as it is, with or without the word for the
/// stream before it.
pub proof fn law_found_signature_is_named(signature: Seq<char>)
    requires
        is_tight(signature),
    ensures
        verdict_of("stream: "@ + signature + " FOUND"@) == VerdictView::Found(signature),
        !begins_with(signature, "stream: "@) ==> verdict_of(signature + " FOUND"@)
            == VerdictView::Found(signature),
{
    lemma_named_behind_stream(signature);
    lemma_found(signature);
    lemma_trimmed(signature);
}

proof fn lemma_named_behind_stream(signature: Seq<char>)
    requires
        is_tight(signature),
    ensures
        verdict_of("stream: "@ + signature + " FOUND"@) == VerdictView::Found(signature),
{
    let word = "stream: "@;
    let head = word + signature;
    assert(word.len() == 8 && word[0] == 's') by {
        reveal_strlit("stream: ");
    }
    assert(head[0] == word[0]);
    lemma_found(head);
    law_text_is_found_inside(Seq::empty(), word, signature);
    assert(head.skip(word.len() as int) =~= signature);
    lemma_trimmed(signature);
}

/// An answer that ends in the word for a clean stream says so.
pub proof fn law_ok_is_clean(subject: Seq<char>)
    requires
        is_tight(subject),
    ensures
        verdict_of("OK"@) is Clean,
        verdict_of(subject + " OK"@) is Clean,
{
    reveal_strlit("OK");
    reveal_strlit(" OK");
    lemma_trimmed("OK"@);
    let answer = subject + " OK"@;
    lemma_trimmed(answer);
    law_text_is_found_inside(subject, " OK"@, Seq::empty());
}

/// Nothing else is taken for clean or for a finding: a clean answer ends in the word for it,
/// and one that names a signature ends in the word for that and holds the name.
pub proof fn law_other_answers_decide_nothing(answer: Seq<char>)
    requires
        is_tight(answer),
    ensures
        verdict_of(answer) is Clean ==> answer.len() >= 2 && answer[answer.len() - 1] == 'K'
            && answer[answer.len() - 2] == 'O',
        verdict_of(answer) matches VerdictView::Found(signature) ==> signature.len() > 0
            && answer.len() > 6 && answer[answer.len() - 1] == 'D' && answer[answer.len() - 2]
            == 'N' && answer[answer.len() - 6] == ' ',
        verdict_of(answer) matches VerdictView::Unavailable(message) ==> message
            == "clamd returned: "@ + answer,
{
    reveal_strlit("OK");
    lemma_trimmed(answer);
    lemma_last_two(answer);
    if finishes_with(answer, " FOUND"@) && answer.len() == 6 {
        reveal_strlit(" FOUND");
        assert(answer.subrange(0, 6)[0] == answer[0]);
    }
}

/// What goes wrong on the way ends a scan without a verdict.
pub proof fn law_failures_end_a_scan(limit: u64, left: Option<nat>, stage: ScanStage, e: String)
    ensures
        ({
            let ends = |event: ScanEvent|
                ({
                    let (later, action) = step_of(limit, left, stage, event);
                    later == ScanStage::Over && action is Stop && action->Stop_0 is Unavailable
                });
            &&& ends(ScanEvent::Measured(Err(e)))
            &&& ends(ScanEvent::Opened(Err(e)))
            &&& ends(ScanEvent::Written(Err(e)))
            &&& ends(ScanEvent::Read(Err(e)))
            &&& ends(ScanEvent::Received(Err(e)))
        }),
{
}

/// A file above the limit is never opened, and none is while the daemon is to be left alone;
/// any other is opened.
pub proof fn law_large_files_are_not_opened(limit: u64, left: Option<nat>, size: u64)
    ensures
        ({
            let (later, action) = step_of(
                limit,
                left,
                ScanStage::Measuring,
                ScanEvent::Measured(Ok(size)),
            );
            if size > limit || left is Some {
                later == ScanStage::Over && action is Stop && action->Stop_0 is Unavailable
            } else {
                later == ScanStage::Opening && action is Open
            }
        }),
{
}

/// A verdict comes of an answer of the daemon alone.
pub proof fn law_verdicts_come_of_answers(
    limit: u64,
    left: Option<nat>,
    stage: ScanStage,
    event: ScanEvent,
)
    requires
        step_of(limit, left, stage, event).1 matches ActionView::Stop(v) && !(v is Unavailable),
    ensures
        event matches ScanEvent::Received(Ok(_)),
{
}

/// Every piece of a file is sent behind its length, and the end of the file as the length
/// zero, upon which the answer is read.
pub proof fn law_pieces_are_sent_behind_their_length(
    limit: u64,
    left: Option<nat>,
    chunk: Vec<u8>,
)
    requires
        chunk@.len() < 0x1_0000_0000,
    ensures
        ({
            let (later, action) = step_of(
                limit,
                left,
                ScanStage::Reading,
                ScanEvent::Read(Ok(chunk)),
            );
            let n = chunk@.len();
            &&& action is Write
            &&& action->Write_0.len() == 4 + n
            &&& action->Write_0[0] * 0x100_0000 + action->Write_0[1] * 0x1_0000 + action->Write_0[2]
                * 0x100 + action->Write_0[3] == n
            &&& action->Write_0.skip(4) == chunk@
            &&& n == 0 <==> later == ScanStage::Finishing
            &&& n > 0 <==> later == ScanStage::Sending
        }),
        step_of(limit, left, ScanStage::Finishing, ScanEvent::Written(Ok(())))
            == (ScanStage::Receiving, ActionView::Receive),
        step_of(limit, left, ScanStage::Sending, ScanEvent::Written(Ok(())))
            == (ScanStage::Reading, ActionView::Read),
        step_of(limit, left, ScanStage::Greeting, ScanEvent::Written(Ok(())))
            == (ScanStage::Reading, ActionView::Read),
{
    let n = chunk@.len();
    let frame = framed(chunk@);
    assert(frame.skip(4) =~= chunk@);
    assert(frame[0] == (n / 0x100_0000 % 256) as u8);
    assert(frame[1] == (n / 0x1_0000 % 256) as u8);
    assert(frame[2] == (n / 256 % 256) as u8);
    assert(frame[3] == (n % 256) as u8);
}

/// The first word that names a database is its version, whatever stands before it that does
/// not.
pub proof fn law_database_is_the_first_named(words: Seq<Seq<char>>, at: int)
    requires
        0 <= at < words.len(),
        begins_with(words[at], "daily."@) || begins_with(words[at], "main."@) || begins_with(
            words[at],
            "bytecode."@,
        ),
        forall|k: int|
            0 <= k < at ==> !begins_with(#[trigger] words[k], "daily."@) && !begins_with(
                words[k],
                "main."@,
            ) && !begins_with(words[k], "bytecode."@),
    ensures
        first_database(words) == Some(words[at]),
    decreases at,
{
    if at > 0 {
        let rest = words.skip(1);
        assert(!begins_with(words[0], "daily."@));
        assert(rest[at - 1] == words[at]);
        assert forall|k: int| 0 <= k < at - 1 implies !begins_with(#[trigger] rest[k], "daily."@)
            && !begins_with(rest[k], "main."@) && !begins_with(rest[k], "bytecode."@) by {
            assert(rest[k] == words[k + 1]);
        }
        law_database_is_the_first_named(rest, at - 1);
    }
}

/// A setting of milliseconds counts a million nanoseconds each; zero and what is no number set
/// nothing.
pub proof fn law_settings_are_read(text: String)
    ensures
        parsed_unsigned(text@, u64::MAX as nat) is None ==> millis_setting(Some(text)) is None,
        parsed_unsigned(text@, u64::MAX as nat) == Some(0nat) ==> millis_setting(Some(text))
            is None,
        parsed_unsigned(text@, u64::MAX as nat) is Some && parsed_unsigned(
            text@,
            u64::MAX as nat,
        )->0 > 0 ==> millis_setting(Some(text)) == Some(
            parsed_unsigned(text@, u64::MAX as nat)->0 * 1000 * 1000,
        ),
        millis_setting(None) is None,
{
}

/// After a failed connection the daemon is left alone for the whole cooldown and no longer.
pub proof fn law_daemon_is_left_alone(failed: u128, cooldown: u128, now: u128)
    requires
        failed <= now,
    ensures
        now < failed + cooldown ==> cooldown_left(Some(failed), cooldown, now) == Some(
            (failed + cooldown - now) as nat,
        ),
        now >= failed + cooldown ==> cooldown_left(Some(failed), cooldown, now) is None,
        cooldown_left(None, cooldown, now) is None,
{
}

/// What the daemon answers replaces the status: a threat with its name, a clean file as such;
/// a scan without a verdict leaves it.
pub proof fn law_status_tells_the_last_verdict(status: StatusView, name: Seq<char>, m: Seq<char>)
    ensures
        scanned_status(status, VerdictView::Found(name)).available,
        scanned_status(status, VerdictView::Found(name)).message == "threat found: "@ + name,
        scanned_status(status, VerdictView::Clean).available,
        scanned_status(status, VerdictView::Clean).message == "last scan clean"@,
        scanned_status(status, VerdictView::Unavailable(m)) == status,
{
}

} // verus!
