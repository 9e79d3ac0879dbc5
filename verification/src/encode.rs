//! The command line of the H.264 encoder that turns raw BGRA frames into an MP4 file.
use vstd::prelude::*;
use crate::color::push_char;

verus! {

/// The ASCII character of a decimal digit `d` (0..10).
pub open spec fn decimal_digit(d: nat) -> char {
    (48 + d) as char
}

/// The decimal notation of `n`, without leading zeros (`0` for zero).
pub open spec fn decimal(n: nat) -> Seq<char>
    decreases n,
{
    if n < 10 {
        seq![decimal_digit(n)]
    } else {
        decimal(n / 10).push(decimal_digit(n % 10))
    }
}

fn push_decimal(s: &mut String, n: u32)
    ensures
        final(s)@ == old(s)@ + decimal(n as nat),
    decreases n,
{
    if n >= 10 {
        push_decimal(s, n / 10);
    }
    let d: u32 = n % 10;
    push_char(s, ((48 + d) as u8) as char);
    assert(final(s)@ =~= old(s)@ + decimal(n as nat));
}

/// The decimal notation of `n`, as `u32::to_string` gives it.
pub fn decimal_string(n: u32) -> (s: String)
    ensures
        s@ == decimal(n as nat),
{
    let mut s = String::new();
    push_decimal(&mut s, n);
    assert(s@ =~= decimal(n as nat));
    s
}

/// The frame size argument: `<width>x<height>`.
pub open spec fn frame_size(width: u32, height: u32) -> Seq<char> {
    decimal(width as nat) + seq!['x'] + decimal(height as nat)
}

/// The encoder arguments for frames of `width` x `height` pixels at `fps` frames per
/// second, read from standard input and written to `output`, overwriting it.
pub open spec fn encoder_arg_list(width: u32, height: u32, fps: u32, output: Seq<char>) -> Seq<
    Seq<char>,
> {
    seq![
        "-f"@,
        "rawvideo"@,
        "-pix_fmt"@,
        "bgra"@,
        "-s"@,
        frame_size(width, height),
        "-r"@,
        decimal(fps as nat),
        "-i"@,
        "pipe:0"@,
        "-pix_fmt"@,
        "yuv420p"@,
        "-c:v"@,
        "libx264"@,
        "-y"@,
        output,
    ]
}

/// The arguments that the ffmpeg encoder is started with: raw BGRA input of the given
/// frame size and rate on standard input, H.264 (yuv420p) output to `output`.
pub fn ffmpeg_args(width: u32, height: u32, fps: u32, output: &str) -> (args: Vec<String>)
    ensures
        args@.len() == 16,
        forall|i: int|
            0 <= i < 16 ==> #[trigger] args@[i]@ == encoder_arg_list(width, height, fps, output@)[i],
{
    let mut size = decimal_string(width);
    push_char(&mut size, 'x');
    let h = decimal_string(height);
    size.append(h.as_str());
    let mut args: Vec<String> = Vec::new();
    args.push(String::from_str("-f"));
    args.push(String::from_str("rawvideo"));
    args.push(String::from_str("-pix_fmt"));
    args.push(String::from_str("bgra"));
    args.push(String::from_str("-s"));
    args.push(size);
    args.push(String::from_str("-r"));
    args.push(decimal_string(fps));
    args.push(String::from_str("-i"));
    args.push(String::from_str("pipe:0"));
    args.push(String::from_str("-pix_fmt"));
    args.push(String::from_str("yuv420p"));
    args.push(String::from_str("-c:v"));
    args.push(String::from_str("libx264"));
    args.push(String::from_str("-y"));
    args.push(String::from_str(output));
    proof {
        let expected = encoder_arg_list(width, height, fps, output@);
        assert(args@[5]@ =~= frame_size(width, height));
        assert forall|i: int| 0 <= i < 16 implies #[trigger] args@[i]@ == expected[i] by {}
    }
    args
}

/// Every character is a decimal digit and there is at least one.
pub open spec fn is_decimal(s: Seq<char>) -> bool {
    s.len() > 0 && forall|j: int| 0 <= j < s.len() ==> 48 <= (#[trigger] s[j] as u32) <= 57
}

/// The number that a string of decimal digits reads as, most significant digit first.
pub open spec fn decimal_value(s: Seq<char>) -> nat
    decreases s.len(),
{
    if s.len() == 0 {
        0
    } else {
        decimal_value(s.drop_last()) * 10 + ((s.last() as u32) - 48) as nat
    }
}

/// The decimal notation of `n` is a string of digits that reads back as `n`, with no
/// leading zero (unless `n` is zero itself).
pub proof fn lemma_decimal_reads_back(n: nat)
    ensures
        is_decimal(decimal(n)),
        decimal_value(decimal(n)) == n,
        decimal(n).len() > 1 ==> decimal(n)[0] != '0',
        decimal(n).len() == 1 <==> n < 10,
    decreases n,
{
    let d = decimal(n);
    let last = decimal_digit(n % 10);
    assert(last as u32 == 48 + n % 10);
    if n >= 10 {
        lemma_decimal_reads_back(n / 10);
        let prefix = decimal(n / 10);
        assert(d == prefix.push(last));
        assert(d.drop_last() =~= prefix);
        assert(d[0] == prefix[0]);
        assert(decimal_value(d) == decimal_value(prefix) * 10 + n % 10);
        assert((n / 10) * 10 + n % 10 == n) by (nonlinear_arith);
        if prefix.len() == 1 {
            assert(prefix[0] as u32 == 48 + n / 10);
        }
        assert forall|j: int| 0 <= j < d.len() implies 48 <= (#[trigger] d[j] as u32) <= 57 by {
            if j < prefix.len() {
                assert(d[j] == prefix[j]);
            }
        }
    } else {
        assert(d =~= seq![last]);
        assert(d.drop_last() =~= Seq::<char>::empty());
        assert(decimal_value(d.drop_last()) == 0);
        assert(decimal_value(d) == n);
    }
}

/// The frame size argument reads as the width, an `x`, then the height: the text before
/// the `x` is the decimal notation of the width and the text after it that of the height.
pub proof fn lemma_frame_size_reads_back(width: u32, height: u32)
    ensures
        exists|k: int|
            0 <= k < frame_size(width, height).len() && #[trigger] frame_size(width, height)[k]
                == 'x' && is_decimal(frame_size(width, height).take(k)) && is_decimal(
                frame_size(width, height).skip(k + 1),
            ) && decimal_value(frame_size(width, height).take(k)) == width && decimal_value(
                frame_size(width, height).skip(k + 1),
            ) == height,
{
    lemma_decimal_reads_back(width as nat);
    lemma_decimal_reads_back(height as nat);
    let s = frame_size(width, height);
    let k = decimal(width as nat).len() as int;
    assert(s.take(k) =~= decimal(width as nat));
    assert(s.skip(k + 1) =~= decimal(height as nat));
    assert(s[k] == 'x');
}

/// A frame size argument holds exactly one `x`, so the split it is read by is unique.
pub proof fn lemma_frame_size_single_x(width: u32, height: u32, k: int)
    requires
        0 <= k < frame_size(width, height).len(),
        frame_size(width, height)[k] == 'x',
    ensures
        k == decimal(width as nat).len(),
{
    lemma_decimal_reads_back(width as nat);
    lemma_decimal_reads_back(height as nat);
    let w = decimal(width as nat);
    let h = decimal(height as nat);
    if k < w.len() {
        assert(frame_size(width, height)[k] == w[k]);
    } else if k > w.len() {
        assert(frame_size(width, height)[k] == h[k - w.len() - 1]);
    }
}

/// The encoder is told the frame size as width `x` height, and the frame rate, in
/// decimal: both read back as the numbers given.
pub proof fn lemma_encoder_args_read_back(width: u32, height: u32, fps: u32, output: Seq<char>)
    ensures
        encoder_arg_list(width, height, fps, output).len() == 16,
        encoder_arg_list(width, height, fps, output)[4] == "-s"@,
        encoder_arg_list(width, height, fps, output)[5] == frame_size(width, height),
        encoder_arg_list(width, height, fps, output)[6] == "-r"@,
        is_decimal(encoder_arg_list(width, height, fps, output)[7]),
        decimal_value(encoder_arg_list(width, height, fps, output)[7]) == fps,
        encoder_arg_list(width, height, fps, output)[15] == output,
{
    lemma_decimal_reads_back(fps as nat);
}

} // verus!
