//! The conversion of a whole document.

use vstd::prelude::*;
use crate::affine::{Affine, Transform};
use crate::engine::{emit_all, step, Engine, FrameKind, FrameModel};
use crate::error::ConvertError;
use crate::fixed::Fixed;
use crate::markup::{
    is_consulted, next_report, open_reader, pending, reports_of, token_model_of, token_of,
    EventKind, ReportModel, Stream, Token, TokenModel,
};

verus! {

/// How far a traversal has come: its open scopes, what it has written, and
/// the error that ended it, if one did.
pub struct Run {
    pub frames: Seq<FrameModel>,
    pub output: Seq<u8>,
    pub failure: Option<ConvertError>,
}

/// The stack of a traversal that has read nothing: the root scope alone.
pub open spec fn initial_frames(root: Affine) -> Seq<FrameModel> {
    seq![FrameModel { kind: FrameKind::Root, transform: root, positions: None, style: None }]
}

/// The traversal of `tokens` from left to right under the root map `root`.
/// The first piece that fails ends it; what was written before stays.
pub open spec fn run(root: Affine, font_scale: int, tokens: Seq<TokenModel>) -> Run
    decreases tokens.len(),
{
    if tokens.len() == 0 {
        Run { frames: initial_frames(root), output: Seq::empty(), failure: None }
    } else {
        let before = run(root, font_scale, tokens.drop_last());
        if before.failure is Some {
            before
        } else {
            match step(before.frames, tokens.last(), font_scale) {
                Ok((frames, drawn)) => Run {
                    frames,
                    output: before.output + emit_all(drawn, font_scale),
                    failure: None,
                },
                Err(e) => Run { failure: Some(e), ..before },
            }
        }
    }
}

/// What a list of tokens holds.
pub open spec fn token_models(v: Seq<Token>) -> Seq<TokenModel> {
    Seq::new(v.len(), |i: int| v[i]@)
}

/// Converts a document that is cut into tokens already: takes them in from
/// left to right and appends to `out` what they draw, until one fails.
pub fn convert_tokens(
    tokens: &Vec<Token>,
    transform: &Transform,
    font_scale: Fixed,
    out: &mut Vec<u8>,
) -> (r: Result<(), ConvertError>)
    ensures
        final(out)@ == old(out)@ + run(transform@, font_scale@, token_models(tokens@)).output,
        match run(transform@, font_scale@, token_models(tokens@)).failure {
            Some(e) => r == Err::<(), ConvertError>(e),
            None => r is Ok,
        },
{
    let mut engine = Engine::new(*transform, font_scale);
    let ghost all = token_models(tokens@);
    let mut i: usize = 0;
    assert(all.take(0) =~= Seq::<TokenModel>::empty());
    assert(out@ =~= old(out)@ + Seq::<u8>::empty());
    while i < tokens.len()
        invariant
            i <= tokens.len(),
            all == token_models(tokens@),
            engine.wf(),
            engine.font_scale() == font_scale@,
            run(transform@, font_scale@, all.take(i as int)).failure is None,
            run(transform@, font_scale@, all.take(i as int)).frames == engine.frames(),
            out@ == old(out)@ + run(transform@, font_scale@, all.take(i as int)).output,
        decreases tokens.len() - i,
    {
        let ghost before = run(transform@, font_scale@, all.take(i as int));
        assert(all.take(i + 1).drop_last() =~= all.take(i as int));
        assert(all.take(i + 1).last() == tokens[i as int]@);
        match engine.handle_event(&tokens[i], out) {
            Ok(()) => {
                assert(out@ =~= old(out)@ + run(transform@, font_scale@, all.take(i + 1)).output);
            },
            Err(e) => {
                proof {
                    lemma_failure_ends(transform@, font_scale@, all, i + 1);
                }
                return Err(e);
            },
        }
        i += 1;
    }
    assert(all.take(tokens.len() as int) =~= all);
    Ok(())
}

/// Once a traversal has failed, further tokens change nothing.
proof fn lemma_failure_ends(root: Affine, font_scale: int, tokens: Seq<TokenModel>, n: int)
    requires
        0 <= n <= tokens.len(),
        run(root, font_scale, tokens.take(n)).failure is Some,
    ensures
        run(root, font_scale, tokens) == run(root, font_scale, tokens.take(n)),
    decreases tokens.len() - n,
{
    if n < tokens.len() {
        assert(tokens.take(n + 1).drop_last() =~= tokens.take(n));
        lemma_failure_ends(root, font_scale, tokens, n + 1);
    } else {
        assert(tokens.take(n) =~= tokens);
    }
}

/// Whether `token` is the piece of the document that the reader reported
/// as `report`, with `svgtypes` consulted.
pub open spec fn is_piece(report: ReportModel, token: TokenModel) -> bool {
    token_model_of(report) is Some && is_consulted(token_model_of(report)->0, token)
}

/// Whether `tokens` are the first pieces of what there is to read, in order.
pub open spec fn are_pieces_of(stream: Stream, tokens: Seq<TokenModel>) -> bool {
    tokens.len() <= stream.reports.len() && forall|k: int|
        0 <= k < tokens.len() ==> #[trigger] is_piece(stream.reports[k], tokens[k])
}

/// Whether the reading ends after `n` pieces on markup that the reader or
/// the unescaping cannot read.
pub open spec fn stops_short(stream: Stream, n: int) -> bool {
    if n < stream.reports.len() {
        0 <= n && token_model_of(stream.reports[n]) is None
    } else {
        n == stream.reports.len() && !stream.whole
    }
}

/// Whether the traversal of `tokens` accounts for a conversion of the
/// document that `stream` holds, which wrote `written` and ended with `r`.
/// The tokens are the first pieces of the document and go no further than
/// the first failure. A conversion succeeds when all the pieces up to the
/// end of the document are traversed; it fails with the error of the
/// traversal, or, the traversal being sound so far, on markup that cannot be
/// read.
pub open spec fn accounts_for(
    root: Affine,
    font_scale: int,
    stream: Stream,
    tokens: Seq<TokenModel>,
    written: Seq<u8>,
    r: Result<(), ConvertError>,
) -> bool {
    let done = run(root, font_scale, tokens);
    &&& are_pieces_of(stream, tokens)
    &&& written == done.output
    &&& tokens.len() > 0 ==> run(root, font_scale, tokens.drop_last()).failure is None
    &&& match r {
        Ok(()) => done.failure is None && stream.whole && tokens.len() == stream.reports.len(),
        Err(e) => done.failure == Some(e) || (done.failure is None && e
            == ConvertError::MalformedMarkup && stops_short(stream, tokens.len() as int)),
    }
}

/// Converts the document `input`: reads it piece by piece and appends to
/// `out` what the pieces draw, under the root map `transform`, with font
/// sizes multiplied by `font_scale`. The pieces are those that the reader
/// reports of the input, in order, up to the end of the document or the
/// first failure; only what `svgtypes` makes of their transforms and paths
/// is left open. What is written is their traversal.
pub fn convert(input: &[u8], transform: &Transform, font_scale: Fixed, out: &mut Vec<u8>) -> (r:
    Result<(), ConvertError>)
    ensures
        exists|tokens: Seq<TokenModel>, written: Seq<u8>|
            final(out)@ == old(out)@ + written && #[trigger] accounts_for(
                transform@,
                font_scale@,
                reports_of(input@),
                tokens,
                written,
                r,
            ),
{
    let mut reader = open_reader(input);
    let mut engine = Engine::new(*transform, font_scale);
    let ghost all = reports_of(input@);
    let ghost mut seen: Seq<TokenModel> = Seq::empty();
    assert(out@ =~= old(out)@ + Seq::<u8>::empty());
    assert(all.reports.skip(0) =~= all.reports);
    loop
        invariant
            engine.wf(),
            engine.font_scale() == font_scale@,
            all == reports_of(input@),
            all.ends_once(),
            seen.len() <= all.reports.len(),
            pending(reader) == (Stream {
                reports: all.reports.skip(seen.len() as int),
                whole: all.whole,
            }),
            forall|k: int| 0 <= k < seen.len() ==> (#[trigger] all.reports[k]).kind != EventKind::Eof,
            are_pieces_of(all, seen),
            run(transform@, font_scale@, seen).failure is None,
            run(transform@, font_scale@, seen).frames == engine.frames(),
            out@ == old(out)@ + run(transform@, font_scale@, seen).output,
        decreases all.reports.len() - seen.len(),
    {
        let ghost before = run(transform@, font_scale@, seen);
        let ghost n = seen.len() as int;
        assert(seen.len() > 0 ==> seen.drop_last().len() < seen.len());
        proof {
            lemma_prefix_is_sound(transform@, font_scale@, seen);
            if all.whole && n == all.reports.len() {
                assert(all.reports[n - 1].kind != EventKind::Eof);
            }
        }
        let report = match next_report(&mut reader) {
            Ok(report) => report,
            Err(_) => {
                assert(accounts_for(
                    transform@,
                    font_scale@,
                    all,
                    seen,
                    before.output,
                    Err(ConvertError::MalformedMarkup),
                ));
                return Err(ConvertError::MalformedMarkup);
            },
        };
        assert(n < all.reports.len());
        assert(report@ == all.reports[n]);
        assert(all.reports.skip(n).skip(1) =~= all.reports.skip(n + 1));
        let raw = match token_of(report) {
            Ok(token) => token,
            Err(e) => {
                assert(accounts_for(transform@, font_scale@, all, seen, before.output, Err(e)));
                return Err(e);
            },
        };
        let ghost raw_model = raw@;
        let token = raw.consult();
        let ghost next = seen.push(token@);
        assert(next.drop_last() =~= seen);
        assert(next.last() == token@);
        assert(are_pieces_of(all, next)) by {
            assert(is_piece(all.reports[n], token@));
            assert forall|k: int| 0 <= k < next.len() implies #[trigger] is_piece(
                all.reports[k],
                next[k],
            ) by {
                if k < n {
                    assert(is_piece(all.reports[k], seen[k]));
                }
            }
        }
        match engine.handle_event(&token, out) {
            Ok(()) => {},
            Err(e) => {
                assert(accounts_for(transform@, font_scale@, all, next, before.output, Err(e)));
                return Err(e);
            },
        }
        let ghost after = run(transform@, font_scale@, next);
        assert(out@ =~= old(out)@ + after.output);
        let ended = match token {
            Token::Eof => true,
            _ => false,
        };
        if ended {
            assert(all.reports[n].kind == EventKind::Eof);
            assert(accounts_for(transform@, font_scale@, all, next, after.output, Ok(())));
            return Ok(());
        }
        assert(all.reports[n].kind != EventKind::Eof);
        proof {
            seen = next;
        }
    }
}

/// A traversal that has not failed has not failed before its last token.
proof fn lemma_prefix_is_sound(root: Affine, font_scale: int, tokens: Seq<TokenModel>)
    requires
        run(root, font_scale, tokens).failure is None,
    ensures
        tokens.len() > 0 ==> run(root, font_scale, tokens.drop_last()).failure is None,
{
}

} // verus!
