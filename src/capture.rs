//! What an output-capture worker does with each chunk it reads.
use vstd::prelude::*;
use crate::line_framer::append_step;
use crate::line_framer::decode_all;
use crate::line_framer::finish_lines;
use crate::line_framer::lossy_text;
use crate::line_framer::LineHelper;
use crate::line_framer::BUFFER_SIZE;
use crate::recent_log::bounded_push;
use crate::recent_log::push_all;
use crate::recent_log::RecentOutputLog;

verus! {

/// Feeds a chunk read from the child to the framer and adds every line it
/// completes to the log.
pub fn capture_chunk(framer: &mut LineHelper, chunk: &[u8], log: &mut RecentOutputLog)
    requires
        old(framer).wf(),
        old(log).wf(),
        chunk@.len() <= BUFFER_SIZE,
    ensures
        final(framer).wf(),
        final(log).wf(),
        final(log).cap() == old(log).cap(),
        final(framer).pending() == append_step(old(framer).pending(), chunk@).1,
        final(log)@ == push_all(
            old(log)@,
            decode_all(append_step(old(framer).pending(), chunk@).0),
            old(log).cap(),
        ),
{
    let lines = framer.append(chunk);
    log.push_lines(lines);
}

/// At the end of the stream, adds the unfinished line, if any, to the log.
pub fn capture_end(framer: LineHelper, log: &mut RecentOutputLog)
    requires
        framer.wf(),
        old(log).wf(),
    ensures
        final(log).wf(),
        final(log).cap() == old(log).cap(),
        final(log)@ == push_all(old(log)@, decode_all(finish_lines(framer.pending())), old(log).cap()),
{
    let ghost p = framer.pending();
    match framer.finish() {
        Some(line) => {
            let ghost s = log@;
            log.push(line);
            proof {
                let xs = decode_all(finish_lines(p));
                assert(xs =~= seq![lossy_text(p)]);
                assert(xs.drop_first() =~= Seq::<Seq<char>>::empty());
                assert(push_all(bounded_push(s, xs[0], log.cap()), xs.drop_first(), log.cap())
                    == bounded_push(s, xs[0], log.cap()));
            }
        },
        None => {
            assert(decode_all(finish_lines(p)) =~= Seq::<Seq<char>>::empty());
        },
    }
}

} // verus!
