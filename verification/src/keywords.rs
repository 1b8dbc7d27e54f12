//! SQL keywords known to the parser.

use vstd::prelude::*;

verus! {

/// A keyword of the SQL dialect. Identifiers that are not keywords carry
/// `NOT_A_KEYWORD`.
#[allow(non_camel_case_types)]
#[derive(Clone, Copy, Debug, PartialEq, Eq, Structural)]
pub enum Keyword {
    NOT_A_KEYWORD,
    ALL,
    AND,
    AS,
    ASC,
    BY,
    CROSS,
    DESC,
    DISTINCT,
    DISTINCTROW,
    FALSE,
    FROM,
    GROUP,
    HAVING,
    HIGH_PRIORITY,
    INNER,
    JOIN,
    LEFT,
    LIMIT,
    NATURAL,
    NOT,
    NULL,
    OFFSET,
    ON,
    OR,
    ORDER,
    OUTER,
    RIGHT,
    SELECT,
    SQL_BIG_RESULT,
    SQL_BUFFER_RESULT,
    SQL_CALC_FOUND_ROWS,
    SQL_NO_CACHE,
    SQL_SMALL_RESULT,
    STRAIGHT_JOIN,
    TRUE,
    USING,
    WHERE,
    WINDOW,
}

/// The keywords that cannot be used as plain identifiers: all of them but
/// `NOT_A_KEYWORD`, `OFFSET`, `SQL_BUFFER_RESULT` and `SQL_NO_CACHE`.
pub open spec fn is_reserved(k: Keyword) -> bool {
    match k {
        Keyword::NOT_A_KEYWORD => false,
        Keyword::OFFSET => false,
        Keyword::SQL_BUFFER_RESULT => false,
        Keyword::SQL_NO_CACHE => false,
        _ => true,
    }
}

impl Keyword {
    /// Whether this keyword is reserved, that is, cannot name a table,
    /// a column or an alias.
    pub fn reserved(&self) -> (r: bool)
        ensures
            r == is_reserved(*self),
    {
        match self {
            Keyword::NOT_A_KEYWORD => false,
            Keyword::OFFSET => false,
            Keyword::SQL_BUFFER_RESULT => false,
            Keyword::SQL_NO_CACHE => false,
            _ => true,
        }
    }
}

} // verus!
