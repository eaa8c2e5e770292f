//! Telling the output of a command from the prompt that follows it.

use vstd::prelude::*;

verus! {

/// The prompt of the client: `proton-drive> `.
pub open spec fn prompt_bytes() -> Seq<u8> {
    seq![112, 114, 111, 116, 111, 110, 45, 100, 114, 105, 118, 101, 62, 32]
}

/// What stands before the prompt at the end of `bytes`: nothing if the prompt is all there is, and
/// else what comes before the line of the prompt. None if `bytes` does not end in a prompt at the
/// start of a line.
pub open spec fn before_prompt(bytes: Seq<u8>) -> Option<Seq<u8>> {
    let prompt = prompt_bytes();
    if bytes == prompt {
        Some(Seq::empty())
    } else if (seq![10u8] + prompt).is_suffix_of(bytes) {
        Some(bytes.take(bytes.len() - prompt.len() - 1))
    } else {
        None
    }
}

/// Output that is read byte by byte.
#[derive(Debug)]
pub struct PromptReader {
    bytes: Vec<u8>,
}

impl View for PromptReader {
    type V = Seq<u8>;

    closed spec fn view(&self) -> Seq<u8> {
        self.bytes@
    }
}

fn prompt_byte(index: usize) -> (r: u8)
    requires
        index < 14,
    ensures
        r == prompt_bytes()[index as int],
{
    let prompt: [u8; 14] = [112, 114, 111, 116, 111, 110, 45, 100, 114, 105, 118, 101, 62, 32];
    prompt[index]
}

impl PromptReader {
    /// Nothing read.
    pub fn new() -> (r: Self)
        ensures
            r@ == Seq::<u8>::empty(),
    {
        PromptReader { bytes: Vec::new() }
    }

    fn at_prompt(&self) -> (r: bool)
        ensures
            r == prompt_bytes().is_suffix_of(self@),
    {
        let length = self.bytes.len();
        if length < 14 {
            return false;
        }
        let mut i: usize = 0;
        while i < 14
            invariant
                i <= 14 <= length,
                length == self.bytes.len(),
                forall|k: int|
                    0 <= k < i ==> self.bytes@[length - 14 + k] == #[trigger] prompt_bytes()[k],
            decreases 14 - i,
        {
            if self.bytes[length - 14 + i] != prompt_byte(i) {
                assert(self@.subrange(length - 14, length as int)[i as int]
                    != prompt_bytes()[i as int]);
                return false;
            }
            i += 1;
        }
        assert(self@.subrange(length - 14, length as int) =~= prompt_bytes());
        true
    }

    /// Takes in a byte. Gives the output once the prompt is there, and starts over.
    pub fn read_to_prompt(&mut self, byte: u8) -> (r: Option<Vec<u8>>)
        ensures
            match r {
                Some(output) => {
                    &&& before_prompt(old(self)@.push(byte)) == Some(output@)
                    &&& final(self)@ == Seq::<u8>::empty()
                },
                None => {
                    &&& before_prompt(old(self)@.push(byte)) is None
                    &&& final(self)@ == old(self)@.push(byte)
                },
            },
    {
        self.bytes.push(byte);
        let ghost all = self.bytes@;
        let ghost prompt = prompt_bytes();
        if !self.at_prompt() {
            proof {
                if all == prompt {
                    assert(all.subrange(0, 14) =~= prompt);
                }
                let line = seq![10u8] + prompt;
                if line.is_suffix_of(all) {
                    assert(all.subrange(all.len() - 15, all.len() as int) =~= line);
                    assert(all.subrange(all.len() - 14, all.len() as int) =~= line.skip(1));
                    assert(line.skip(1) =~= prompt);
                }
            }
            return None;
        }
        let length = self.bytes.len();
        if length == 14 {
            assert(all.subrange(0, 14) =~= all);
            let mut output: Vec<u8> = Vec::new();
            std::mem::swap(&mut output, &mut self.bytes);
            output.truncate(0);
            assert(output@ =~= Seq::<u8>::empty());
            return Some(output);
        }
        if self.bytes[length - 15] != 10 {
            proof {
                let line = seq![10u8] + prompt;
                if line.is_suffix_of(all) {
                    assert(all.subrange(all.len() - 15, all.len() as int)[0] == line[0]);
                }
            }
            return None;
        }
        let mut output: Vec<u8> = Vec::new();
        std::mem::swap(&mut output, &mut self.bytes);
        output.truncate(length - 15);
        proof {
            let line = seq![10u8] + prompt;
            assert(all.subrange(all.len() - 15, all.len() as int) =~= line) by {
                assert forall|k: int| 0 <= k < 15 implies all.subrange(
                    all.len() - 15,
                    all.len() as int,
                )[k] == line[k] by {
                    if k > 0 {
                        assert(all.subrange(all.len() - 14, all.len() as int)[k - 1] == prompt[k
                            - 1]);
                    }
                }
            }
            assert(output@ =~= all.take(all.len() - 15));
        }
        Some(output)
    }
}

/// Whatever a command writes is told from the prompt on the line after it.
pub proof fn output_is_read_back(output: Seq<u8>)
    ensures
        before_prompt(output + seq![10u8] + prompt_bytes()) == Some(output),
        before_prompt(prompt_bytes()) == Some(Seq::<u8>::empty()),
{
    let line = seq![10u8] + prompt_bytes();
    let all = output + seq![10u8] + prompt_bytes();
    assert(all.subrange(output.len() as int, all.len() as int) =~= line);
    assert(all.take(all.len() - prompt_bytes().len() - 1) =~= output);
}

} // verus!
