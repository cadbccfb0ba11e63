//! What a prompt holds, row by row.
use vstd::prelude::*;
use crate::algebra::plus;
use crate::arith;
use crate::arith::Arithmetic;
use crate::prompt;
use crate::prompt::{
    assemble_prompt, CloneMode, PromptAssembly, PromptAssemblyInput, PromptError,
};
use crate::rows;

verus! {

/// A prompt opens with the three role rows as they are. Then every codec row of the header but the
/// last comes with text padding, the last of them with the beginning of text instead. The last codec
/// row, the beginning of codes, is held back.
pub proof fn law_a_prompt_opens_with_its_header<A: Arithmetic>(
    input: PromptAssemblyInput<A::Scalar>,
    i: int,
    c: int,
)
    requires
        input.header_fits(),
        prompt::first_mismatch(input.all_rows(), input.width()) is None,
        0 <= c < input.width(),
    ensures
        prompt::prefill_of::<A>(input).len() >= 2 + input.header.codec_prefill@.len(),
        0 <= i < 3 ==> prompt::prefill_of::<A>(input)[i] == input.header.role@[i]@,
        0 <= i < input.header.codec_prefill@.len() - 2 ==> prompt::prefill_of::<A>(input)[3 + i][c]
            == plus::<A>(input.header.tts_pad@[c], input.header.codec_prefill@[i]@[c]),
        i == input.header.codec_prefill@.len() - 2 ==> prompt::prefill_of::<A>(input)[3 + i][c]
            == plus::<A>(input.header.tts_bos@[c], input.header.codec_prefill@[i]@[c]),
{
    lemma_widths(input);
    let header = prompt::header_of::<A>(input);
    let whole = prompt::prefill_of::<A>(input);
    assert(header.len() == 2 + input.header.codec_prefill@.len());
    if 0 <= i < 3 {
        assert(whole[i] == header[i]);
    }
    if 0 <= i < input.header.codec_prefill@.len() - 1 {
        assert(whole[3 + i] == header[3 + i]);
    }
}

/// Where all rows of an input are equally wide, so is each of them.
proof fn lemma_widths<S>(input: PromptAssemblyInput<S>)
    requires
        prompt::first_mismatch(input.all_rows(), input.width()) is None,
    ensures
        rows::uniform(rows::deep(input.header.role@), input.width()),
        rows::uniform(rows::deep(input.header.codec_prefill@), input.width()),
        input.header.tts_bos@.len() == input.width(),
        input.tts_eos@.len() == input.width(),
        rows::uniform(rows::deep(input.target_text@), input.width()),
        rows::uniform(input.reference_rows(), input.width()),
        rows::uniform(input.codec_rows(), input.width()),
        rows::uniform(input.text_stream(), input.width()),
        input.header.codec_prefill@.len() >= 1 ==> rows::uniform(
            input.codec_stream(),
            input.width(),
        ),
{
    let w = input.width();
    let all = input.all_rows();
    prompt::lemma_no_mismatch_is_uniform(all, w);
    let role = rows::deep(input.header.role@);
    let codec = rows::deep(input.header.codec_prefill@);
    let target = rows::deep(input.target_text@);
    let reference = input.reference_rows();
    let frames = input.codec_rows();
    let r = role.len() as int;
    let k = codec.len() as int;
    let n = target.len() as int;
    let m = reference.len() as int;
    assert forall|i: int| 0 <= i < r implies (#[trigger] role[i]).len() == w by {
        assert(all[i] == role[i]);
    }
    assert forall|i: int| 0 <= i < k implies (#[trigger] codec[i]).len() == w by {
        assert(all[r + i] == codec[i]);
    }
    assert(all[r + k] == input.header.tts_bos@);
    assert(all[r + k + 2] == input.tts_eos@);
    assert forall|i: int| 0 <= i < n implies (#[trigger] target[i]).len() == w by {
        assert(all[r + k + 3 + i] == target[i]);
    }
    assert forall|i: int| 0 <= i < m implies (#[trigger] reference[i]).len() == w by {
        assert(all[r + k + 3 + n + i] == reference[i]);
    }
    assert forall|i: int| 0 <= i < frames.len() implies (#[trigger] frames[i]).len() == w by {
        assert(all[r + k + 3 + n + m + i] == frames[i]);
    }
    let text = input.text_stream();
    assert forall|i: int| 0 <= i < text.len() implies (#[trigger] text[i]).len() == w by {
        if i < m {
            assert(text[i] == reference[i]);
        } else if i < m + n {
            assert(text[i] == target[i - m]);
        } else {
            assert(text[i] == input.tts_eos@);
        }
    }
    if k >= 1 {
        let stream = input.codec_stream();
        assert(codec[k - 1].len() == w);
        assert forall|i: int| 0 <= i < stream.len() implies (#[trigger] stream[i]).len() == w by {
            if i > 0 {
                assert(stream[i] == frames[i - 1]);
            } else {
                assert(stream[0] == codec[k - 1]);
            }
        }
    }
}

/// With reference codes and streaming, text and codes run side by side from the header on: the
/// transcript, the text and its end on one side, the beginning of codes and the reference frames on
/// the other. Text that outlasts the codes trails; codes that outlast the text come with padding.
/// So every text row is given once.
pub proof fn law_streamed_text_runs_beside_the_codes<A: Arithmetic>(
    input: PromptAssemblyInput<A::Scalar>,
    i: int,
    c: int,
)
    requires
        input.header_fits(),
        prompt::first_mismatch(input.all_rows(), input.width()) is None,
        input.mode.clone_mode == CloneMode::Icl,
        !input.mode.non_streaming_mode,
        0 <= i,
        0 <= c < input.width(),
    ensures
        ({
            let text = input.reference_rows() + rows::deep(input.target_text@) + seq![
                input.tts_eos@,
            ];
            let codes = seq![input.header.codec_prefill@[input.header.codec_prefill@.len() - 1]@]
                + input.codec_rows();
            let first = 2 + input.header.codec_prefill@.len();
            let whole = prompt::prefill_of::<A>(input);
            &&& whole.len() == first + codes.len()
            &&& i < codes.len() && i < text.len() ==> whole[first + i][c] == plus::<A>(
                text[i][c],
                codes[i][c],
            )
            &&& text.len() <= i < codes.len() ==> whole[first + i][c] == plus::<A>(
                input.header.tts_pad@[c],
                codes[i][c],
            )
            &&& codes.len() <= i < text.len() ==> i - codes.len() < input.trailing().len()
                && input.trailing()[i - codes.len()] == text[i]
            &&& codes.len() < text.len() ==> input.trailing().len() == text.len() - codes.len()
            &&& text.len() <= codes.len() ==> input.trailing() == seq![input.header.tts_pad@]
        }),
{
    lemma_widths(input);
    let text = input.text_stream();
    let codes = input.codec_stream();
    let header = prompt::header_of::<A>(input);
    let whole = prompt::prefill_of::<A>(input);
    let first = 2 + input.header.codec_prefill@.len();
    assert(header.len() == first);
    if i < codes.len() {
        assert(whole[first + i] == prompt::paired_of::<A>(text, codes, input.header.tts_pad@)[i]);
        assert(codes[i].len() == input.width());
        if i < text.len() {
            assert(text[i].len() == input.width());
        }
    }
}

/// With reference codes and no streaming, all text comes first, each row with codec padding, and
/// then all codes, each row with text padding; nothing but padding trails.
pub proof fn law_unstreamed_text_comes_before_the_codes<A: Arithmetic>(
    input: PromptAssemblyInput<A::Scalar>,
    i: int,
    c: int,
)
    requires
        input.header_fits(),
        prompt::first_mismatch(input.all_rows(), input.width()) is None,
        input.mode.clone_mode == CloneMode::Icl,
        input.mode.non_streaming_mode,
        0 <= i,
        0 <= c < input.width(),
    ensures
        ({
            let prefill = input.header.codec_prefill@;
            let text = input.reference_rows() + rows::deep(input.target_text@) + seq![
                input.tts_eos@,
            ];
            let codes = seq![prefill[prefill.len() - 1]@] + input.codec_rows();
            let first = 2 + prefill.len();
            let whole = prompt::prefill_of::<A>(input);
            &&& whole.len() == first + text.len() + codes.len()
            &&& i < text.len() ==> whole[first + i][c] == plus::<A>(
                text[i][c],
                prefill[prefill.len() - 2]@[c],
            )
            &&& i < codes.len() ==> whole[first + text.len() + i][c] == plus::<A>(
                codes[i][c],
                input.header.tts_pad@[c],
            )
            &&& input.trailing() == seq![input.header.tts_pad@]
        }),
{
    lemma_widths(input);
    let text = input.text_stream();
    let codes = input.codec_stream();
    let header = prompt::header_of::<A>(input);
    let whole = prompt::prefill_of::<A>(input);
    let first = 2 + input.header.codec_prefill@.len();
    assert(header.len() == first);
    if i < text.len() {
        assert(whole[first + i] == prompt::added_to::<A>(text, input.codec_pad())[i]);
        assert(text[i].len() == input.width());
    }
    if i < codes.len() {
        assert(whole[first + text.len() + i] == prompt::added_to::<A>(
            codes,
            input.header.tts_pad@,
        )[i]);
        assert(codes[i].len() == input.width());
    }
}

/// With a speaker vector and streaming, the first text row comes with the beginning of codes, every
/// later one trails in its order, and the end of text trails last unless it is held back.
pub proof fn law_streamed_text_trails_its_first_row<A: Arithmetic>(
    input: PromptAssemblyInput<A::Scalar>,
    i: int,
    c: int,
)
    requires
        input.header_fits(),
        prompt::first_mismatch(input.all_rows(), input.width()) is None,
        input.mode.clone_mode == CloneMode::XVector,
        !input.mode.non_streaming_mode,
        input.target_text@.len() > 0,
        0 <= c < input.width(),
    ensures
        ({
            let prefill = input.header.codec_prefill@;
            let first = 2 + prefill.len();
            let n = input.target_text@.len();
            let whole = prompt::prefill_of::<A>(input);
            &&& whole.len() == first + 1
            &&& whole[first as int][c] == plus::<A>(
                input.target_text@[0]@[c],
                prefill[prefill.len() - 1]@[c],
            )
            &&& input.trailing().len() == if input.hold_tts_eos {
                n - 1
            } else {
                n as int
            }
            &&& 0 <= i < n - 1 ==> input.trailing()[i] == input.target_text@[i + 1]@
            &&& !input.hold_tts_eos ==> input.trailing()[n - 1] == input.tts_eos@
        }),
{
    lemma_widths(input);
    let header = prompt::header_of::<A>(input);
    let first = 2 + input.header.codec_prefill@.len();
    assert(header.len() == first);
    assert(rows::deep(input.target_text@)[0].len() == input.width());
}

/// With a speaker vector and no streaming, all text and its end come first, each row with codec
/// padding, then the beginning of codes with text padding; nothing but padding trails.
pub proof fn law_unstreamed_text_comes_before_the_beginning_of_codes<A: Arithmetic>(
    input: PromptAssemblyInput<A::Scalar>,
    i: int,
    c: int,
)
    requires
        input.header_fits(),
        prompt::first_mismatch(input.all_rows(), input.width()) is None,
        input.mode.clone_mode == CloneMode::XVector,
        input.mode.non_streaming_mode,
        0 <= c < input.width(),
    ensures
        ({
            let prefill = input.header.codec_prefill@;
            let first = 2 + prefill.len();
            let n = input.target_text@.len();
            let whole = prompt::prefill_of::<A>(input);
            &&& whole.len() == first + n + 2
            &&& 0 <= i < n ==> whole[first + i][c] == plus::<A>(
                input.target_text@[i]@[c],
                prefill[prefill.len() - 2]@[c],
            )
            &&& whole[(first + n) as int][c] == plus::<A>(
                input.tts_eos@[c],
                prefill[prefill.len() - 2]@[c],
            )
            &&& whole[(first + n + 1) as int][c] == plus::<A>(
                input.header.tts_pad@[c],
                prefill[prefill.len() - 1]@[c],
            )
            &&& input.trailing() == seq![input.header.tts_pad@]
        }),
{
    lemma_widths(input);
    let header = prompt::header_of::<A>(input);
    let first = 2 + input.header.codec_prefill@.len();
    let n = input.target_text@.len();
    let target = rows::deep(input.target_text@);
    let whole = prompt::prefill_of::<A>(input);
    let text = target + seq![input.tts_eos@];
    assert(header.len() == first);
    let padded = prompt::added_to::<A>(text, input.codec_pad());
    if 0 <= i < n {
        assert(target[i].len() == input.width());
        assert(whole[first + i] == padded[i]);
    }
    assert(whole[(first + n) as int] == padded[n as int]);
}

/// Whatever [`assemble_prompt`] accepts, it returns the rows that the laws above describe: what is in
/// the prompt, what trails it, and nothing else.
pub proof fn law_assembled_prompts_hold_the_prescribed_rows<A: Arithmetic>(
    input: PromptAssemblyInput<A::Scalar>,
    assembly: PromptAssembly<A::Scalar>,
    i: int,
)
    requires
        arith::pure::<A>(),
        input.countable(),
        call_ensures(
            assemble_prompt::<A>,
            (input,),
            Ok::<PromptAssembly<A::Scalar>, PromptError>(assembly),
        ),
    ensures
        input.header_fits(),
        prompt::first_mismatch(input.all_rows(), input.width()) is None,
        assembly.prefill@.len() == prompt::prefill_of::<A>(input).len(),
        0 <= i < assembly.prefill@.len() ==> assembly.prefill@[i]@ == prompt::prefill_of::<A>(
            input,
        )[i],
        assembly.trailing_text_hidden@.len() == input.trailing().len(),
        0 <= i < input.trailing().len() ==> assembly.trailing_text_hidden@[i]@
            == input.trailing()[i],
{
    if 0 <= i < assembly.prefill@.len() {
        assert(rows::deep(assembly.prefill@)[i] == assembly.prefill@[i]@);
    }
    if 0 <= i < input.trailing().len() {
        assert(rows::deep(assembly.trailing_text_hidden@)[i]
            == assembly.trailing_text_hidden@[i]@);
    }
    assert(rows::deep(assembly.trailing_text_hidden@).len() == input.trailing().len());
}

/// The mismatch that is reported is the width of the first row that is not as wide as it should be.
pub proof fn law_the_first_mismatch_is_reported<S>(states: Seq<Seq<S>>, width: int, i: int)
    requires
        0 <= i < states.len(),
        states[i].len() != width,
        forall|j: int| 0 <= j < i ==> (#[trigger] states[j]).len() == width,
    ensures
        prompt::first_mismatch(states, width) == Some(states[i].len() as int),
    decreases states.len(),
{
    if i > 0 {
        assert(states[0].len() == width);
        let rest = states.skip(1);
        assert forall|j: int| 0 <= j < i - 1 implies (#[trigger] rest[j]).len() == width by {
            assert(states[j + 1].len() == width);
        }
        law_the_first_mismatch_is_reported(rest, width, i - 1);
    }
}

/// The prefix that does not depend on the text: the header, and with reference codes as many rows of the
/// transcript as the codes run beside, or all of them where text comes first.
pub proof fn law_the_prefix_ends_where_the_text_begins<S>(input: PromptAssemblyInput<S>)
    requires
        input.header_fits(),
    ensures
        ({
            let header = 2 + input.header.codec_prefill@.len();
            let transcript = input.reference_rows().len();
            let codes = 1 + input.codec_rows().len();
            input.prefix_len() == header + if input.mode.clone_mode == CloneMode::XVector {
                0
            } else if input.mode.non_streaming_mode || transcript <= codes {
                transcript as int
            } else {
                codes as int
            }
        }),
{
}

} // verus!
