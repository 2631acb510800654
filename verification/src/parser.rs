use vstd::prelude::*;

use crate::lexer::lemma_next_token_bounds;
use crate::lexer::lemma_wf_pos_in_range;
use crate::lexer::next_token_spec;
use crate::lexer::token_stream;
use crate::lexer::Lexer;
use crate::lexer::LexerView;
use crate::lexer::Token;
use crate::lexer::TokenView;

verus! {

/// Drives a scanner over its whole input and collects every token it
/// yields before the end-of-input sentinel.
pub struct Parser {
    lexer: Lexer,
}

/// The collected result of one full scan: every token before the
/// end-of-input sentinel, in scan order.
#[derive(Debug, PartialEq)]
pub struct Program {
    pub statements: Vec<Token>,
}

impl View for Program {
    type V = Seq<TokenView>;

    open spec fn view(&self) -> Seq<TokenView> {
        self.statements@.map_values(|t: Token| t@)
    }
}

impl View for Parser {
    type V = LexerView;

    closed spec fn view(&self) -> LexerView {
        self.lexer@
    }
}

impl Parser {
    /// The parser is as well-formed as the scanner it drives.
    pub closed spec fn wf(&self) -> bool {
        self.lexer.wf()
    }

    pub fn new(lexer: Lexer) -> (parser: Parser)
        ensures
            parser.wf() == lexer.wf(),
            parser@ == lexer@,
    {
        Parser { lexer }
    }

    /// Pulls tokens until the scanner yields its first end-of-input
    /// sentinel and returns them all, in order, without the sentinel.
    pub fn parse(&mut self) -> (program: Program)
        requires
            old(self).wf(),
        ensures
            final(self).wf(),
            final(self)@.input == old(self)@.input,
            program@ == token_stream(old(self)@.input, old(self)@.pos),
    {
        let ghost input0 = self@.input;
        let ghost pos0 = self@.pos;
        proof {
            lemma_wf_pos_in_range(&self.lexer);
        }
        let mut statements: Vec<Token> = Vec::new();

        loop
            invariant_except_break
                self.wf(),
                self@.input == input0,
                0 <= self@.pos <= input0.len(),
                token_stream(input0, pos0) == statements@.map_values(|t: Token| t@)
                    + token_stream(input0, self@.pos),
            ensures
                self.wf(),
                self@.input == input0,
                token_stream(input0, pos0) == statements@.map_values(|t: Token| t@),
            decreases input0.len() - self@.pos,
        {
            let ghost prev = self@.pos;
            let token = self.lexer.next_token();
            proof {
                lemma_next_token_bounds(input0, prev);
            }
            match token {
                Token::Eof => {
                    proof {
                        assert(token_stream(input0, prev) =~= Seq::<TokenView>::empty());
                    }
                    break ;
                },
                token => {
                    proof {
                        let rest = token_stream(input0, self@.pos);
                        assert(token_stream(input0, prev) =~= seq![token@] + rest);
                        assert(statements@.push(token).map_values(|t: Token| t@) =~= statements@
                            .map_values(|t: Token| t@).push(token@));
                        assert(statements@.map_values(|t: Token| t@).push(token@) + rest
                            =~= statements@.map_values(|t: Token| t@) + (seq![token@] + rest));
                    }
                    statements.push(token)
                },
            }
        }

        Program { statements }
    }
}

} // verus!
