//! The static Huffman code (RFC 7541 Appendix B).
//!
//! The code is canonical: among the codes of one length, consecutive codes
//! belong to ascending symbols, and the first code of a length follows the
//! last of the next shorter one. The symbols in code order and, for every
//! length, the first code and its rank are therefore enough to decode.

use vstd::prelude::*;

verus! {

/// The code of symbol `k`, right-aligned.
pub open spec fn code(k: u8) -> u32 {
    match k {
        0 => 0x1ff8,
        1 => 0x7fffd8,
        2 => 0xfffffe2,
        3 => 0xfffffe3,
        4 => 0xfffffe4,
        5 => 0xfffffe5,
        6 => 0xfffffe6,
        7 => 0xfffffe7,
        8 => 0xfffffe8,
        9 => 0xffffea,
        10 => 0x3ffffffc,
        11 => 0xfffffe9,
        12 => 0xfffffea,
        13 => 0x3ffffffd,
        14 => 0xfffffeb,
        15 => 0xfffffec,
        16 => 0xfffffed,
        17 => 0xfffffee,
        18 => 0xfffffef,
        19 => 0xffffff0,
        20 => 0xffffff1,
        21 => 0xffffff2,
        22 => 0x3ffffffe,
        23 => 0xffffff3,
        24 => 0xffffff4,
        25 => 0xffffff5,
        26 => 0xffffff6,
        27 => 0xffffff7,
        28 => 0xffffff8,
        29 => 0xffffff9,
        30 => 0xffffffa,
        31 => 0xffffffb,
        32 => 0x14,
        33 => 0x3f8,
        34 => 0x3f9,
        35 => 0xffa,
        36 => 0x1ff9,
        37 => 0x15,
        38 => 0xf8,
        39 => 0x7fa,
        40 => 0x3fa,
        41 => 0x3fb,
        42 => 0xf9,
        43 => 0x7fb,
        44 => 0xfa,
        45 => 0x16,
        46 => 0x17,
        47 => 0x18,
        48 => 0x0,
        49 => 0x1,
        50 => 0x2,
        51 => 0x19,
        52 => 0x1a,
        53 => 0x1b,
        54 => 0x1c,
        55 => 0x1d,
        56 => 0x1e,
        57 => 0x1f,
        58 => 0x5c,
        59 => 0xfb,
        60 => 0x7ffc,
        61 => 0x20,
        62 => 0xffb,
        63 => 0x3fc,
        64 => 0x1ffa,
        65 => 0x21,
        66 => 0x5d,
        67 => 0x5e,
        68 => 0x5f,
        69 => 0x60,
        70 => 0x61,
        71 => 0x62,
        72 => 0x63,
        73 => 0x64,
        74 => 0x65,
        75 => 0x66,
        76 => 0x67,
        77 => 0x68,
        78 => 0x69,
        79 => 0x6a,
        80 => 0x6b,
        81 => 0x6c,
        82 => 0x6d,
        83 => 0x6e,
        84 => 0x6f,
        85 => 0x70,
        86 => 0x71,
        87 => 0x72,
        88 => 0xfc,
        89 => 0x73,
        90 => 0xfd,
        91 => 0x1ffb,
        92 => 0x7fff0,
        93 => 0x1ffc,
        94 => 0x3ffc,
        95 => 0x22,
        96 => 0x7ffd,
        97 => 0x3,
        98 => 0x23,
        99 => 0x4,
        100 => 0x24,
        101 => 0x5,
        102 => 0x25,
        103 => 0x26,
        104 => 0x27,
        105 => 0x6,
        106 => 0x74,
        107 => 0x75,
        108 => 0x28,
        109 => 0x29,
        110 => 0x2a,
        111 => 0x7,
        112 => 0x2b,
        113 => 0x76,
        114 => 0x2c,
        115 => 0x8,
        116 => 0x9,
        117 => 0x2d,
        118 => 0x77,
        119 => 0x78,
        120 => 0x79,
        121 => 0x7a,
        122 => 0x7b,
        123 => 0x7ffe,
        124 => 0x7fc,
        125 => 0x3ffd,
        126 => 0x1ffd,
        127 => 0xffffffc,
        128 => 0xfffe6,
        129 => 0x3fffd2,
        130 => 0xfffe7,
        131 => 0xfffe8,
        132 => 0x3fffd3,
        133 => 0x3fffd4,
        134 => 0x3fffd5,
        135 => 0x7fffd9,
        136 => 0x3fffd6,
        137 => 0x7fffda,
        138 => 0x7fffdb,
        139 => 0x7fffdc,
        140 => 0x7fffdd,
        141 => 0x7fffde,
        142 => 0xffffeb,
        143 => 0x7fffdf,
        144 => 0xffffec,
        145 => 0xffffed,
        146 => 0x3fffd7,
        147 => 0x7fffe0,
        148 => 0xffffee,
        149 => 0x7fffe1,
        150 => 0x7fffe2,
        151 => 0x7fffe3,
        152 => 0x7fffe4,
        153 => 0x1fffdc,
        154 => 0x3fffd8,
        155 => 0x7fffe5,
        156 => 0x3fffd9,
        157 => 0x7fffe6,
        158 => 0x7fffe7,
        159 => 0xffffef,
        160 => 0x3fffda,
        161 => 0x1fffdd,
        162 => 0xfffe9,
        163 => 0x3fffdb,
        164 => 0x3fffdc,
        165 => 0x7fffe8,
        166 => 0x7fffe9,
        167 => 0x1fffde,
        168 => 0x7fffea,
        169 => 0x3fffdd,
        170 => 0x3fffde,
        171 => 0xfffff0,
        172 => 0x1fffdf,
        173 => 0x3fffdf,
        174 => 0x7fffeb,
        175 => 0x7fffec,
        176 => 0x1fffe0,
        177 => 0x1fffe1,
        178 => 0x3fffe0,
        179 => 0x1fffe2,
        180 => 0x7fffed,
        181 => 0x3fffe1,
        182 => 0x7fffee,
        183 => 0x7fffef,
        184 => 0xfffea,
        185 => 0x3fffe2,
        186 => 0x3fffe3,
        187 => 0x3fffe4,
        188 => 0x7ffff0,
        189 => 0x3fffe5,
        190 => 0x3fffe6,
        191 => 0x7ffff1,
        192 => 0x3ffffe0,
        193 => 0x3ffffe1,
        194 => 0xfffeb,
        195 => 0x7fff1,
        196 => 0x3fffe7,
        197 => 0x7ffff2,
        198 => 0x3fffe8,
        199 => 0x1ffffec,
        200 => 0x3ffffe2,
        201 => 0x3ffffe3,
        202 => 0x3ffffe4,
        203 => 0x7ffffde,
        204 => 0x7ffffdf,
        205 => 0x3ffffe5,
        206 => 0xfffff1,
        207 => 0x1ffffed,
        208 => 0x7fff2,
        209 => 0x1fffe3,
        210 => 0x3ffffe6,
        211 => 0x7ffffe0,
        212 => 0x7ffffe1,
        213 => 0x3ffffe7,
        214 => 0x7ffffe2,
        215 => 0xfffff2,
        216 => 0x1fffe4,
        217 => 0x1fffe5,
        218 => 0x3ffffe8,
        219 => 0x3ffffe9,
        220 => 0xffffffd,
        221 => 0x7ffffe3,
        222 => 0x7ffffe4,
        223 => 0x7ffffe5,
        224 => 0xfffec,
        225 => 0xfffff3,
        226 => 0xfffed,
        227 => 0x1fffe6,
        228 => 0x3fffe9,
        229 => 0x1fffe7,
        230 => 0x1fffe8,
        231 => 0x7ffff3,
        232 => 0x3fffea,
        233 => 0x3fffeb,
        234 => 0x1ffffee,
        235 => 0x1ffffef,
        236 => 0xfffff4,
        237 => 0xfffff5,
        238 => 0x3ffffea,
        239 => 0x7ffff4,
        240 => 0x3ffffeb,
        241 => 0x7ffffe6,
        242 => 0x3ffffec,
        243 => 0x3ffffed,
        244 => 0x7ffffe7,
        245 => 0x7ffffe8,
        246 => 0x7ffffe9,
        247 => 0x7ffffea,
        248 => 0x7ffffeb,
        249 => 0xffffffe,
        250 => 0x7ffffec,
        251 => 0x7ffffed,
        252 => 0x7ffffee,
        253 => 0x7ffffef,
        254 => 0x7fffff0,
        _ => 0x3ffffee,
    }
}

/// The length in bits of the code of symbol `k`.
pub open spec fn code_len(k: u8) -> u32 {
    match k {
        0 => 13,
        1 => 23,
        2 => 28,
        3 => 28,
        4 => 28,
        5 => 28,
        6 => 28,
        7 => 28,
        8 => 28,
        9 => 24,
        10 => 30,
        11 => 28,
        12 => 28,
        13 => 30,
        14 => 28,
        15 => 28,
        16 => 28,
        17 => 28,
        18 => 28,
        19 => 28,
        20 => 28,
        21 => 28,
        22 => 30,
        23 => 28,
        24 => 28,
        25 => 28,
        26 => 28,
        27 => 28,
        28 => 28,
        29 => 28,
        30 => 28,
        31 => 28,
        32 => 6,
        33 => 10,
        34 => 10,
        35 => 12,
        36 => 13,
        37 => 6,
        38 => 8,
        39 => 11,
        40 => 10,
        41 => 10,
        42 => 8,
        43 => 11,
        44 => 8,
        45 => 6,
        46 => 6,
        47 => 6,
        48 => 5,
        49 => 5,
        50 => 5,
        51 => 6,
        52 => 6,
        53 => 6,
        54 => 6,
        55 => 6,
        56 => 6,
        57 => 6,
        58 => 7,
        59 => 8,
        60 => 15,
        61 => 6,
        62 => 12,
        63 => 10,
        64 => 13,
        65 => 6,
        66 => 7,
        67 => 7,
        68 => 7,
        69 => 7,
        70 => 7,
        71 => 7,
        72 => 7,
        73 => 7,
        74 => 7,
        75 => 7,
        76 => 7,
        77 => 7,
        78 => 7,
        79 => 7,
        80 => 7,
        81 => 7,
        82 => 7,
        83 => 7,
        84 => 7,
        85 => 7,
        86 => 7,
        87 => 7,
        88 => 8,
        89 => 7,
        90 => 8,
        91 => 13,
        92 => 19,
        93 => 13,
        94 => 14,
        95 => 6,
        96 => 15,
        97 => 5,
        98 => 6,
        99 => 5,
        100 => 6,
        101 => 5,
        102 => 6,
        103 => 6,
        104 => 6,
        105 => 5,
        106 => 7,
        107 => 7,
        108 => 6,
        109 => 6,
        110 => 6,
        111 => 5,
        112 => 6,
        113 => 7,
        114 => 6,
        115 => 5,
        116 => 5,
        117 => 6,
        118 => 7,
        119 => 7,
        120 => 7,
        121 => 7,
        122 => 7,
        123 => 15,
        124 => 11,
        125 => 14,
        126 => 13,
        127 => 28,
        128 => 20,
        129 => 22,
        130 => 20,
        131 => 20,
        132 => 22,
        133 => 22,
        134 => 22,
        135 => 23,
        136 => 22,
        137 => 23,
        138 => 23,
        139 => 23,
        140 => 23,
        141 => 23,
        142 => 24,
        143 => 23,
        144 => 24,
        145 => 24,
        146 => 22,
        147 => 23,
        148 => 24,
        149 => 23,
        150 => 23,
        151 => 23,
        152 => 23,
        153 => 21,
        154 => 22,
        155 => 23,
        156 => 22,
        157 => 23,
        158 => 23,
        159 => 24,
        160 => 22,
        161 => 21,
        162 => 20,
        163 => 22,
        164 => 22,
        165 => 23,
        166 => 23,
        167 => 21,
        168 => 23,
        169 => 22,
        170 => 22,
        171 => 24,
        172 => 21,
        173 => 22,
        174 => 23,
        175 => 23,
        176 => 21,
        177 => 21,
        178 => 22,
        179 => 21,
        180 => 23,
        181 => 22,
        182 => 23,
        183 => 23,
        184 => 20,
        185 => 22,
        186 => 22,
        187 => 22,
        188 => 23,
        189 => 22,
        190 => 22,
        191 => 23,
        192 => 26,
        193 => 26,
        194 => 20,
        195 => 19,
        196 => 22,
        197 => 23,
        198 => 22,
        199 => 25,
        200 => 26,
        201 => 26,
        202 => 26,
        203 => 27,
        204 => 27,
        205 => 26,
        206 => 24,
        207 => 25,
        208 => 19,
        209 => 21,
        210 => 26,
        211 => 27,
        212 => 27,
        213 => 26,
        214 => 27,
        215 => 24,
        216 => 21,
        217 => 21,
        218 => 26,
        219 => 26,
        220 => 28,
        221 => 27,
        222 => 27,
        223 => 27,
        224 => 20,
        225 => 24,
        226 => 20,
        227 => 21,
        228 => 22,
        229 => 21,
        230 => 21,
        231 => 23,
        232 => 22,
        233 => 22,
        234 => 25,
        235 => 25,
        236 => 24,
        237 => 24,
        238 => 26,
        239 => 23,
        240 => 26,
        241 => 27,
        242 => 26,
        243 => 26,
        244 => 27,
        245 => 27,
        246 => 27,
        247 => 27,
        248 => 27,
        249 => 28,
        250 => 27,
        251 => 27,
        252 => 27,
        253 => 27,
        254 => 27,
        _ => 26,
    }
}

/// The symbol of rank `k` in code order.
pub open spec fn symbol_at(k: u8) -> u8 {
    match k {
        0 => 48,
        1 => 49,
        2 => 50,
        3 => 97,
        4 => 99,
        5 => 101,
        6 => 105,
        7 => 111,
        8 => 115,
        9 => 116,
        10 => 32,
        11 => 37,
        12 => 45,
        13 => 46,
        14 => 47,
        15 => 51,
        16 => 52,
        17 => 53,
        18 => 54,
        19 => 55,
        20 => 56,
        21 => 57,
        22 => 61,
        23 => 65,
        24 => 95,
        25 => 98,
        26 => 100,
        27 => 102,
        28 => 103,
        29 => 104,
        30 => 108,
        31 => 109,
        32 => 110,
        33 => 112,
        34 => 114,
        35 => 117,
        36 => 58,
        37 => 66,
        38 => 67,
        39 => 68,
        40 => 69,
        41 => 70,
        42 => 71,
        43 => 72,
        44 => 73,
        45 => 74,
        46 => 75,
        47 => 76,
        48 => 77,
        49 => 78,
        50 => 79,
        51 => 80,
        52 => 81,
        53 => 82,
        54 => 83,
        55 => 84,
        56 => 85,
        57 => 86,
        58 => 87,
        59 => 89,
        60 => 106,
        61 => 107,
        62 => 113,
        63 => 118,
        64 => 119,
        65 => 120,
        66 => 121,
        67 => 122,
        68 => 38,
        69 => 42,
        70 => 44,
        71 => 59,
        72 => 88,
        73 => 90,
        74 => 33,
        75 => 34,
        76 => 40,
        77 => 41,
        78 => 63,
        79 => 39,
        80 => 43,
        81 => 124,
        82 => 35,
        83 => 62,
        84 => 0,
        85 => 36,
        86 => 64,
        87 => 91,
        88 => 93,
        89 => 126,
        90 => 94,
        91 => 125,
        92 => 60,
        93 => 96,
        94 => 123,
        95 => 92,
        96 => 195,
        97 => 208,
        98 => 128,
        99 => 130,
        100 => 131,
        101 => 162,
        102 => 184,
        103 => 194,
        104 => 224,
        105 => 226,
        106 => 153,
        107 => 161,
        108 => 167,
        109 => 172,
        110 => 176,
        111 => 177,
        112 => 179,
        113 => 209,
        114 => 216,
        115 => 217,
        116 => 227,
        117 => 229,
        118 => 230,
        119 => 129,
        120 => 132,
        121 => 133,
        122 => 134,
        123 => 136,
        124 => 146,
        125 => 154,
        126 => 156,
        127 => 160,
        128 => 163,
        129 => 164,
        130 => 169,
        131 => 170,
        132 => 173,
        133 => 178,
        134 => 181,
        135 => 185,
        136 => 186,
        137 => 187,
        138 => 189,
        139 => 190,
        140 => 196,
        141 => 198,
        142 => 228,
        143 => 232,
        144 => 233,
        145 => 1,
        146 => 135,
        147 => 137,
        148 => 138,
        149 => 139,
        150 => 140,
        151 => 141,
        152 => 143,
        153 => 147,
        154 => 149,
        155 => 150,
        156 => 151,
        157 => 152,
        158 => 155,
        159 => 157,
        160 => 158,
        161 => 165,
        162 => 166,
        163 => 168,
        164 => 174,
        165 => 175,
        166 => 180,
        167 => 182,
        168 => 183,
        169 => 188,
        170 => 191,
        171 => 197,
        172 => 231,
        173 => 239,
        174 => 9,
        175 => 142,
        176 => 144,
        177 => 145,
        178 => 148,
        179 => 159,
        180 => 171,
        181 => 206,
        182 => 215,
        183 => 225,
        184 => 236,
        185 => 237,
        186 => 199,
        187 => 207,
        188 => 234,
        189 => 235,
        190 => 192,
        191 => 193,
        192 => 200,
        193 => 201,
        194 => 202,
        195 => 205,
        196 => 210,
        197 => 213,
        198 => 218,
        199 => 219,
        200 => 238,
        201 => 240,
        202 => 242,
        203 => 243,
        204 => 255,
        205 => 203,
        206 => 204,
        207 => 211,
        208 => 212,
        209 => 214,
        210 => 221,
        211 => 222,
        212 => 223,
        213 => 241,
        214 => 244,
        215 => 245,
        216 => 246,
        217 => 247,
        218 => 248,
        219 => 250,
        220 => 251,
        221 => 252,
        222 => 253,
        223 => 254,
        224 => 2,
        225 => 3,
        226 => 4,
        227 => 5,
        228 => 6,
        229 => 7,
        230 => 8,
        231 => 11,
        232 => 12,
        233 => 14,
        234 => 15,
        235 => 16,
        236 => 17,
        237 => 18,
        238 => 19,
        239 => 20,
        240 => 21,
        241 => 23,
        242 => 24,
        243 => 25,
        244 => 26,
        245 => 27,
        246 => 28,
        247 => 29,
        248 => 30,
        249 => 31,
        250 => 127,
        251 => 220,
        252 => 249,
        253 => 10,
        254 => 13,
        _ => 22,
    }
}

/// Looks up [`code`].
pub fn code_of(k: u8) -> (r: u32)
    ensures
        r == code(k),
{
    match k {
        0 => 0x1ff8,
        1 => 0x7fffd8,
        2 => 0xfffffe2,
        3 => 0xfffffe3,
        4 => 0xfffffe4,
        5 => 0xfffffe5,
        6 => 0xfffffe6,
        7 => 0xfffffe7,
        8 => 0xfffffe8,
        9 => 0xffffea,
        10 => 0x3ffffffc,
        11 => 0xfffffe9,
        12 => 0xfffffea,
        13 => 0x3ffffffd,
        14 => 0xfffffeb,
        15 => 0xfffffec,
        16 => 0xfffffed,
        17 => 0xfffffee,
        18 => 0xfffffef,
        19 => 0xffffff0,
        20 => 0xffffff1,
        21 => 0xffffff2,
        22 => 0x3ffffffe,
        23 => 0xffffff3,
        24 => 0xffffff4,
        25 => 0xffffff5,
        26 => 0xffffff6,
        27 => 0xffffff7,
        28 => 0xffffff8,
        29 => 0xffffff9,
        30 => 0xffffffa,
        31 => 0xffffffb,
        32 => 0x14,
        33 => 0x3f8,
        34 => 0x3f9,
        35 => 0xffa,
        36 => 0x1ff9,
        37 => 0x15,
        38 => 0xf8,
        39 => 0x7fa,
        40 => 0x3fa,
        41 => 0x3fb,
        42 => 0xf9,
        43 => 0x7fb,
        44 => 0xfa,
        45 => 0x16,
        46 => 0x17,
        47 => 0x18,
        48 => 0x0,
        49 => 0x1,
        50 => 0x2,
        51 => 0x19,
        52 => 0x1a,
        53 => 0x1b,
        54 => 0x1c,
        55 => 0x1d,
        56 => 0x1e,
        57 => 0x1f,
        58 => 0x5c,
        59 => 0xfb,
        60 => 0x7ffc,
        61 => 0x20,
        62 => 0xffb,
        63 => 0x3fc,
        64 => 0x1ffa,
        65 => 0x21,
        66 => 0x5d,
        67 => 0x5e,
        68 => 0x5f,
        69 => 0x60,
        70 => 0x61,
        71 => 0x62,
        72 => 0x63,
        73 => 0x64,
        74 => 0x65,
        75 => 0x66,
        76 => 0x67,
        77 => 0x68,
        78 => 0x69,
        79 => 0x6a,
        80 => 0x6b,
        81 => 0x6c,
        82 => 0x6d,
        83 => 0x6e,
        84 => 0x6f,
        85 => 0x70,
        86 => 0x71,
        87 => 0x72,
        88 => 0xfc,
        89 => 0x73,
        90 => 0xfd,
        91 => 0x1ffb,
        92 => 0x7fff0,
        93 => 0x1ffc,
        94 => 0x3ffc,
        95 => 0x22,
        96 => 0x7ffd,
        97 => 0x3,
        98 => 0x23,
        99 => 0x4,
        100 => 0x24,
        101 => 0x5,
        102 => 0x25,
        103 => 0x26,
        104 => 0x27,
        105 => 0x6,
        106 => 0x74,
        107 => 0x75,
        108 => 0x28,
        109 => 0x29,
        110 => 0x2a,
        111 => 0x7,
        112 => 0x2b,
        113 => 0x76,
        114 => 0x2c,
        115 => 0x8,
        116 => 0x9,
        117 => 0x2d,
        118 => 0x77,
        119 => 0x78,
        120 => 0x79,
        121 => 0x7a,
        122 => 0x7b,
        123 => 0x7ffe,
        124 => 0x7fc,
        125 => 0x3ffd,
        126 => 0x1ffd,
        127 => 0xffffffc,
        128 => 0xfffe6,
        129 => 0x3fffd2,
        130 => 0xfffe7,
        131 => 0xfffe8,
        132 => 0x3fffd3,
        133 => 0x3fffd4,
        134 => 0x3fffd5,
        135 => 0x7fffd9,
        136 => 0x3fffd6,
        137 => 0x7fffda,
        138 => 0x7fffdb,
        139 => 0x7fffdc,
        140 => 0x7fffdd,
        141 => 0x7fffde,
        142 => 0xffffeb,
        143 => 0x7fffdf,
        144 => 0xffffec,
        145 => 0xffffed,
        146 => 0x3fffd7,
        147 => 0x7fffe0,
        148 => 0xffffee,
        149 => 0x7fffe1,
        150 => 0x7fffe2,
        151 => 0x7fffe3,
        152 => 0x7fffe4,
        153 => 0x1fffdc,
        154 => 0x3fffd8,
        155 => 0x7fffe5,
        156 => 0x3fffd9,
        157 => 0x7fffe6,
        158 => 0x7fffe7,
        159 => 0xffffef,
        160 => 0x3fffda,
        161 => 0x1fffdd,
        162 => 0xfffe9,
        163 => 0x3fffdb,
        164 => 0x3fffdc,
        165 => 0x7fffe8,
        166 => 0x7fffe9,
        167 => 0x1fffde,
        168 => 0x7fffea,
        169 => 0x3fffdd,
        170 => 0x3fffde,
        171 => 0xfffff0,
        172 => 0x1fffdf,
        173 => 0x3fffdf,
        174 => 0x7fffeb,
        175 => 0x7fffec,
        176 => 0x1fffe0,
        177 => 0x1fffe1,
        178 => 0x3fffe0,
        179 => 0x1fffe2,
        180 => 0x7fffed,
        181 => 0x3fffe1,
        182 => 0x7fffee,
        183 => 0x7fffef,
        184 => 0xfffea,
        185 => 0x3fffe2,
        186 => 0x3fffe3,
        187 => 0x3fffe4,
        188 => 0x7ffff0,
        189 => 0x3fffe5,
        190 => 0x3fffe6,
        191 => 0x7ffff1,
        192 => 0x3ffffe0,
        193 => 0x3ffffe1,
        194 => 0xfffeb,
        195 => 0x7fff1,
        196 => 0x3fffe7,
        197 => 0x7ffff2,
        198 => 0x3fffe8,
        199 => 0x1ffffec,
        200 => 0x3ffffe2,
        201 => 0x3ffffe3,
        202 => 0x3ffffe4,
        203 => 0x7ffffde,
        204 => 0x7ffffdf,
        205 => 0x3ffffe5,
        206 => 0xfffff1,
        207 => 0x1ffffed,
        208 => 0x7fff2,
        209 => 0x1fffe3,
        210 => 0x3ffffe6,
        211 => 0x7ffffe0,
        212 => 0x7ffffe1,
        213 => 0x3ffffe7,
        214 => 0x7ffffe2,
        215 => 0xfffff2,
        216 => 0x1fffe4,
        217 => 0x1fffe5,
        218 => 0x3ffffe8,
        219 => 0x3ffffe9,
        220 => 0xffffffd,
        221 => 0x7ffffe3,
        222 => 0x7ffffe4,
        223 => 0x7ffffe5,
        224 => 0xfffec,
        225 => 0xfffff3,
        226 => 0xfffed,
        227 => 0x1fffe6,
        228 => 0x3fffe9,
        229 => 0x1fffe7,
        230 => 0x1fffe8,
        231 => 0x7ffff3,
        232 => 0x3fffea,
        233 => 0x3fffeb,
        234 => 0x1ffffee,
        235 => 0x1ffffef,
        236 => 0xfffff4,
        237 => 0xfffff5,
        238 => 0x3ffffea,
        239 => 0x7ffff4,
        240 => 0x3ffffeb,
        241 => 0x7ffffe6,
        242 => 0x3ffffec,
        243 => 0x3ffffed,
        244 => 0x7ffffe7,
        245 => 0x7ffffe8,
        246 => 0x7ffffe9,
        247 => 0x7ffffea,
        248 => 0x7ffffeb,
        249 => 0xffffffe,
        250 => 0x7ffffec,
        251 => 0x7ffffed,
        252 => 0x7ffffee,
        253 => 0x7ffffef,
        254 => 0x7fffff0,
        _ => 0x3ffffee,
    }
}

/// Looks up [`code_len`].
pub fn code_len_of(k: u8) -> (r: u32)
    ensures
        r == code_len(k),
        5 <= r <= 30,
{
    match k {
        0 => 13,
        1 => 23,
        2 => 28,
        3 => 28,
        4 => 28,
        5 => 28,
        6 => 28,
        7 => 28,
        8 => 28,
        9 => 24,
        10 => 30,
        11 => 28,
        12 => 28,
        13 => 30,
        14 => 28,
        15 => 28,
        16 => 28,
        17 => 28,
        18 => 28,
        19 => 28,
        20 => 28,
        21 => 28,
        22 => 30,
        23 => 28,
        24 => 28,
        25 => 28,
        26 => 28,
        27 => 28,
        28 => 28,
        29 => 28,
        30 => 28,
        31 => 28,
        32 => 6,
        33 => 10,
        34 => 10,
        35 => 12,
        36 => 13,
        37 => 6,
        38 => 8,
        39 => 11,
        40 => 10,
        41 => 10,
        42 => 8,
        43 => 11,
        44 => 8,
        45 => 6,
        46 => 6,
        47 => 6,
        48 => 5,
        49 => 5,
        50 => 5,
        51 => 6,
        52 => 6,
        53 => 6,
        54 => 6,
        55 => 6,
        56 => 6,
        57 => 6,
        58 => 7,
        59 => 8,
        60 => 15,
        61 => 6,
        62 => 12,
        63 => 10,
        64 => 13,
        65 => 6,
        66 => 7,
        67 => 7,
        68 => 7,
        69 => 7,
        70 => 7,
        71 => 7,
        72 => 7,
        73 => 7,
        74 => 7,
        75 => 7,
        76 => 7,
        77 => 7,
        78 => 7,
        79 => 7,
        80 => 7,
        81 => 7,
        82 => 7,
        83 => 7,
        84 => 7,
        85 => 7,
        86 => 7,
        87 => 7,
        88 => 8,
        89 => 7,
        90 => 8,
        91 => 13,
        92 => 19,
        93 => 13,
        94 => 14,
        95 => 6,
        96 => 15,
        97 => 5,
        98 => 6,
        99 => 5,
        100 => 6,
        101 => 5,
        102 => 6,
        103 => 6,
        104 => 6,
        105 => 5,
        106 => 7,
        107 => 7,
        108 => 6,
        109 => 6,
        110 => 6,
        111 => 5,
        112 => 6,
        113 => 7,
        114 => 6,
        115 => 5,
        116 => 5,
        117 => 6,
        118 => 7,
        119 => 7,
        120 => 7,
        121 => 7,
        122 => 7,
        123 => 15,
        124 => 11,
        125 => 14,
        126 => 13,
        127 => 28,
        128 => 20,
        129 => 22,
        130 => 20,
        131 => 20,
        132 => 22,
        133 => 22,
        134 => 22,
        135 => 23,
        136 => 22,
        137 => 23,
        138 => 23,
        139 => 23,
        140 => 23,
        141 => 23,
        142 => 24,
        143 => 23,
        144 => 24,
        145 => 24,
        146 => 22,
        147 => 23,
        148 => 24,
        149 => 23,
        150 => 23,
        151 => 23,
        152 => 23,
        153 => 21,
        154 => 22,
        155 => 23,
        156 => 22,
        157 => 23,
        158 => 23,
        159 => 24,
        160 => 22,
        161 => 21,
        162 => 20,
        163 => 22,
        164 => 22,
        165 => 23,
        166 => 23,
        167 => 21,
        168 => 23,
        169 => 22,
        170 => 22,
        171 => 24,
        172 => 21,
        173 => 22,
        174 => 23,
        175 => 23,
        176 => 21,
        177 => 21,
        178 => 22,
        179 => 21,
        180 => 23,
        181 => 22,
        182 => 23,
        183 => 23,
        184 => 20,
        185 => 22,
        186 => 22,
        187 => 22,
        188 => 23,
        189 => 22,
        190 => 22,
        191 => 23,
        192 => 26,
        193 => 26,
        194 => 20,
        195 => 19,
        196 => 22,
        197 => 23,
        198 => 22,
        199 => 25,
        200 => 26,
        201 => 26,
        202 => 26,
        203 => 27,
        204 => 27,
        205 => 26,
        206 => 24,
        207 => 25,
        208 => 19,
        209 => 21,
        210 => 26,
        211 => 27,
        212 => 27,
        213 => 26,
        214 => 27,
        215 => 24,
        216 => 21,
        217 => 21,
        218 => 26,
        219 => 26,
        220 => 28,
        221 => 27,
        222 => 27,
        223 => 27,
        224 => 20,
        225 => 24,
        226 => 20,
        227 => 21,
        228 => 22,
        229 => 21,
        230 => 21,
        231 => 23,
        232 => 22,
        233 => 22,
        234 => 25,
        235 => 25,
        236 => 24,
        237 => 24,
        238 => 26,
        239 => 23,
        240 => 26,
        241 => 27,
        242 => 26,
        243 => 26,
        244 => 27,
        245 => 27,
        246 => 27,
        247 => 27,
        248 => 27,
        249 => 28,
        250 => 27,
        251 => 27,
        252 => 27,
        253 => 27,
        254 => 27,
        _ => 26,
    }
}

/// Looks up [`symbol_at`].
pub fn symbol_at_of(k: u8) -> (r: u8)
    ensures
        r == symbol_at(k),
{
    match k {
        0 => 48,
        1 => 49,
        2 => 50,
        3 => 97,
        4 => 99,
        5 => 101,
        6 => 105,
        7 => 111,
        8 => 115,
        9 => 116,
        10 => 32,
        11 => 37,
        12 => 45,
        13 => 46,
        14 => 47,
        15 => 51,
        16 => 52,
        17 => 53,
        18 => 54,
        19 => 55,
        20 => 56,
        21 => 57,
        22 => 61,
        23 => 65,
        24 => 95,
        25 => 98,
        26 => 100,
        27 => 102,
        28 => 103,
        29 => 104,
        30 => 108,
        31 => 109,
        32 => 110,
        33 => 112,
        34 => 114,
        35 => 117,
        36 => 58,
        37 => 66,
        38 => 67,
        39 => 68,
        40 => 69,
        41 => 70,
        42 => 71,
        43 => 72,
        44 => 73,
        45 => 74,
        46 => 75,
        47 => 76,
        48 => 77,
        49 => 78,
        50 => 79,
        51 => 80,
        52 => 81,
        53 => 82,
        54 => 83,
        55 => 84,
        56 => 85,
        57 => 86,
        58 => 87,
        59 => 89,
        60 => 106,
        61 => 107,
        62 => 113,
        63 => 118,
        64 => 119,
        65 => 120,
        66 => 121,
        67 => 122,
        68 => 38,
        69 => 42,
        70 => 44,
        71 => 59,
        72 => 88,
        73 => 90,
        74 => 33,
        75 => 34,
        76 => 40,
        77 => 41,
        78 => 63,
        79 => 39,
        80 => 43,
        81 => 124,
        82 => 35,
        83 => 62,
        84 => 0,
        85 => 36,
        86 => 64,
        87 => 91,
        88 => 93,
        89 => 126,
        90 => 94,
        91 => 125,
        92 => 60,
        93 => 96,
        94 => 123,
        95 => 92,
        96 => 195,
        97 => 208,
        98 => 128,
        99 => 130,
        100 => 131,
        101 => 162,
        102 => 184,
        103 => 194,
        104 => 224,
        105 => 226,
        106 => 153,
        107 => 161,
        108 => 167,
        109 => 172,
        110 => 176,
        111 => 177,
        112 => 179,
        113 => 209,
        114 => 216,
        115 => 217,
        116 => 227,
        117 => 229,
        118 => 230,
        119 => 129,
        120 => 132,
        121 => 133,
        122 => 134,
        123 => 136,
        124 => 146,
        125 => 154,
        126 => 156,
        127 => 160,
        128 => 163,
        129 => 164,
        130 => 169,
        131 => 170,
        132 => 173,
        133 => 178,
        134 => 181,
        135 => 185,
        136 => 186,
        137 => 187,
        138 => 189,
        139 => 190,
        140 => 196,
        141 => 198,
        142 => 228,
        143 => 232,
        144 => 233,
        145 => 1,
        146 => 135,
        147 => 137,
        148 => 138,
        149 => 139,
        150 => 140,
        151 => 141,
        152 => 143,
        153 => 147,
        154 => 149,
        155 => 150,
        156 => 151,
        157 => 152,
        158 => 155,
        159 => 157,
        160 => 158,
        161 => 165,
        162 => 166,
        163 => 168,
        164 => 174,
        165 => 175,
        166 => 180,
        167 => 182,
        168 => 183,
        169 => 188,
        170 => 191,
        171 => 197,
        172 => 231,
        173 => 239,
        174 => 9,
        175 => 142,
        176 => 144,
        177 => 145,
        178 => 148,
        179 => 159,
        180 => 171,
        181 => 206,
        182 => 215,
        183 => 225,
        184 => 236,
        185 => 237,
        186 => 199,
        187 => 207,
        188 => 234,
        189 => 235,
        190 => 192,
        191 => 193,
        192 => 200,
        193 => 201,
        194 => 202,
        195 => 205,
        196 => 210,
        197 => 213,
        198 => 218,
        199 => 219,
        200 => 238,
        201 => 240,
        202 => 242,
        203 => 243,
        204 => 255,
        205 => 203,
        206 => 204,
        207 => 211,
        208 => 212,
        209 => 214,
        210 => 221,
        211 => 222,
        212 => 223,
        213 => 241,
        214 => 244,
        215 => 245,
        216 => 246,
        217 => 247,
        218 => 248,
        219 => 250,
        220 => 251,
        221 => 252,
        222 => 253,
        223 => 254,
        224 => 2,
        225 => 3,
        226 => 4,
        227 => 5,
        228 => 6,
        229 => 7,
        230 => 8,
        231 => 11,
        232 => 12,
        233 => 14,
        234 => 15,
        235 => 16,
        236 => 17,
        237 => 18,
        238 => 19,
        239 => 20,
        240 => 21,
        241 => 23,
        242 => 24,
        243 => 25,
        244 => 26,
        245 => 27,
        246 => 28,
        247 => 29,
        248 => 30,
        249 => 31,
        250 => 127,
        251 => 220,
        252 => 249,
        253 => 10,
        254 => 13,
        _ => 22,
    }
}

/// The smallest code of length `n`.
pub open spec fn first_code(n: u32) -> u32 {
    match n {
        5 => 0x0,
        6 => 0x14,
        7 => 0x5c,
        8 => 0xf8,
        10 => 0x3f8,
        11 => 0x7fa,
        12 => 0xffa,
        13 => 0x1ff8,
        14 => 0x3ffc,
        15 => 0x7ffc,
        19 => 0x7fff0,
        20 => 0xfffe6,
        21 => 0x1fffdc,
        22 => 0x3fffd2,
        23 => 0x7fffd8,
        24 => 0xffffea,
        25 => 0x1ffffec,
        26 => 0x3ffffe0,
        27 => 0x7ffffde,
        28 => 0xfffffe2,
        30 => 0x3ffffffc,
        _ => 0,
    }
}

/// Looks up [`first_code`].
pub fn first_code_of(n: u32) -> (r: u32)
    ensures
        r == first_code(n),
{
    match n {
        5 => 0x0,
        6 => 0x14,
        7 => 0x5c,
        8 => 0xf8,
        10 => 0x3f8,
        11 => 0x7fa,
        12 => 0xffa,
        13 => 0x1ff8,
        14 => 0x3ffc,
        15 => 0x7ffc,
        19 => 0x7fff0,
        20 => 0xfffe6,
        21 => 0x1fffdc,
        22 => 0x3fffd2,
        23 => 0x7fffd8,
        24 => 0xffffea,
        25 => 0x1ffffec,
        26 => 0x3ffffe0,
        27 => 0x7ffffde,
        28 => 0xfffffe2,
        30 => 0x3ffffffc,
        _ => 0,
    }
}

/// The rank of the smallest code of length `n`.
pub open spec fn first_rank(n: u32) -> u32 {
    match n {
        5 => 0,
        6 => 10,
        7 => 36,
        8 => 68,
        10 => 74,
        11 => 79,
        12 => 82,
        13 => 84,
        14 => 90,
        15 => 92,
        19 => 95,
        20 => 98,
        21 => 106,
        22 => 119,
        23 => 145,
        24 => 174,
        25 => 186,
        26 => 190,
        27 => 205,
        28 => 224,
        30 => 253,
        _ => 0,
    }
}

/// Looks up [`first_rank`].
pub fn first_rank_of(n: u32) -> (r: u32)
    ensures
        r == first_rank(n),
{
    match n {
        5 => 0,
        6 => 10,
        7 => 36,
        8 => 68,
        10 => 74,
        11 => 79,
        12 => 82,
        13 => 84,
        14 => 90,
        15 => 92,
        19 => 95,
        20 => 98,
        21 => 106,
        22 => 119,
        23 => 145,
        24 => 174,
        25 => 186,
        26 => 190,
        27 => 205,
        28 => 224,
        30 => 253,
        _ => 0,
    }
}

/// The number of symbols with a code of length `n`.
pub open spec fn code_count(n: u32) -> u32 {
    match n {
        5 => 10,
        6 => 26,
        7 => 32,
        8 => 6,
        10 => 5,
        11 => 3,
        12 => 2,
        13 => 6,
        14 => 2,
        15 => 3,
        19 => 3,
        20 => 8,
        21 => 13,
        22 => 26,
        23 => 29,
        24 => 12,
        25 => 4,
        26 => 15,
        27 => 19,
        28 => 29,
        30 => 3,
        _ => 0,
    }
}

/// Looks up [`code_count`].
pub fn code_count_of(n: u32) -> (r: u32)
    ensures
        r == code_count(n),
{
    match n {
        5 => 10,
        6 => 26,
        7 => 32,
        8 => 6,
        10 => 5,
        11 => 3,
        12 => 2,
        13 => 6,
        14 => 2,
        15 => 3,
        19 => 3,
        20 => 8,
        21 => 13,
        22 => 26,
        23 => 29,
        24 => 12,
        25 => 4,
        26 => 15,
        27 => 19,
        28 => 29,
        30 => 3,
        _ => 0,
    }
}

/// Every code is found from its length and its offset among the codes of
/// that length.
#[verifier::rlimit(100)]
pub proof fn lemma_symbol_rank(s: u8, n: u32, c: u32, r: u8)
    by (bit_vector)
    requires
        n == code_len(s),
        c == code(s),
        r == first_rank(n) + (c - first_code(n)),
    ensures
        symbol_at(r) == s,
{
}

/// The code of a symbol lies among the codes of its length.
pub proof fn lemma_code_level(s: u8, n: u32, c: u32)
    by (bit_vector)
    requires
        n == code_len(s),
        c == code(s),
    ensures
        5 <= n <= 30,
        first_code(n) <= c < first_code(n) + code_count(n),
        first_rank(n) + code_count(n) <= 256,
{
}

/// The codes of one length are consecutive in rank order.
#[verifier::rlimit(100)]
pub proof fn lemma_rank_symbol(n: u32, i: u32, r: u8, s: u8)
    by (bit_vector)
    requires
        i < code_count(n),
        r == first_rank(n) + i,
        s == symbol_at(r),
    ensures
        code_len(s) == n,
        code(s) == first_code(n) + i,
{
}

/// The first code of a length follows the last code of any shorter one.
pub proof fn lemma_level_order(n: u32, m: u32)
    by (bit_vector)
    requires
        n < m,
        code_count(n) > 0,
        code_count(m) > 0,
    ensures
        first_code(m) >> ((m - n) as u32) >= first_code(n) + code_count(n),
{
}

/// Every code fits in its length, and none consists of ones only.
pub proof fn lemma_code_range(s: u8, n: u32, c: u32)
    by (bit_vector)
    requires
        n == code_len(s),
        c == code(s),
    ensures
        c >> n == 0,
        c != ((1u32 << n) - 1) as u32,
{
}

/// The lengths of the codes (RFC 7541 Appendix B): which symbols have a code of
/// how many bits.
#[verifier::rlimit(100)]
pub proof fn lemma_code_lengths(s: u8)
    by (bit_vector)
    ensures
        (code_len(s) == 5) == ((48 <= s && s <= 50) || s == 97 || s == 99 || s == 101 || s == 105 || s == 111 || (115 <= s && s <= 116)),
        (code_len(s) == 6) == (s == 32 || s == 37 || (45 <= s && s <= 47) || (51 <= s && s <= 57) || s == 61 || s == 65 || s == 95 || s == 98 || s == 100 || (102 <= s && s <= 104) || (108 <= s && s <= 110) || s == 112 || s == 114 || s == 117),
        (code_len(s) == 7) == (s == 58 || (66 <= s && s <= 87) || s == 89 || (106 <= s && s <= 107) || s == 113 || (118 <= s && s <= 122)),
        (code_len(s) == 8) == (s == 38 || s == 42 || s == 44 || s == 59 || s == 88 || s == 90),
        (code_len(s) == 10) == ((33 <= s && s <= 34) || (40 <= s && s <= 41) || s == 63),
        (code_len(s) == 11) == (s == 39 || s == 43 || s == 124),
        (code_len(s) == 12) == (s == 35 || s == 62),
        (code_len(s) == 13) == (s == 0 || s == 36 || s == 64 || s == 91 || s == 93 || s == 126),
        (code_len(s) == 14) == (s == 94 || s == 125),
        (code_len(s) == 15) == (s == 60 || s == 96 || s == 123),
        (code_len(s) == 19) == (s == 92 || s == 195 || s == 208),
        (code_len(s) == 20) == (s == 128 || (130 <= s && s <= 131) || s == 162 || s == 184 || s == 194 || s == 224 || s == 226),
        (code_len(s) == 21) == (s == 153 || s == 161 || s == 167 || s == 172 || (176 <= s && s <= 177) || s == 179 || s == 209 || (216 <= s && s <= 217) || s == 227 || (229 <= s && s <= 230)),
        (code_len(s) == 22) == (s == 129 || (132 <= s && s <= 134) || s == 136 || s == 146 || s == 154 || s == 156 || s == 160 || (163 <= s && s <= 164) || (169 <= s && s <= 170) || s == 173 || s == 178 || s == 181 || (185 <= s && s <= 187) || (189 <= s && s <= 190) || s == 196 || s == 198 || s == 228 || (232 <= s && s <= 233)),
        (code_len(s) == 23) == (s == 1 || s == 135 || (137 <= s && s <= 141) || s == 143 || s == 147 || (149 <= s && s <= 152) || s == 155 || (157 <= s && s <= 158) || (165 <= s && s <= 166) || s == 168 || (174 <= s && s <= 175) || s == 180 || (182 <= s && s <= 183) || s == 188 || s == 191 || s == 197 || s == 231 || s == 239),
        (code_len(s) == 24) == (s == 9 || s == 142 || (144 <= s && s <= 145) || s == 148 || s == 159 || s == 171 || s == 206 || s == 215 || s == 225 || (236 <= s && s <= 237)),
        (code_len(s) == 25) == (s == 199 || s == 207 || (234 <= s && s <= 235)),
        (code_len(s) == 26) == ((192 <= s && s <= 193) || (200 <= s && s <= 202) || s == 205 || s == 210 || s == 213 || (218 <= s && s <= 219) || s == 238 || s == 240 || (242 <= s && s <= 243) || s == 255),
        (code_len(s) == 27) == ((203 <= s && s <= 204) || (211 <= s && s <= 212) || s == 214 || (221 <= s && s <= 223) || s == 241 || (244 <= s && s <= 248) || (250 <= s && s <= 254)),
        (code_len(s) == 28) == ((2 <= s && s <= 8) || (11 <= s && s <= 12) || (14 <= s && s <= 21) || (23 <= s && s <= 31) || s == 127 || s == 220 || s == 249),
        (code_len(s) == 30) == (s == 10 || s == 13 || s == 22),
{
}

/// The code is canonical: codes of one length ascend with their symbols, without
/// gaps, and a longer code starts behind every shorter one.
#[verifier::rlimit(100)]
pub proof fn lemma_codes_ascend(a: u8, b: u8)
    by (bit_vector)
    requires
        a < b,
        code_len(a) == code_len(b),
    ensures
        code(a) < code(b),
{
}

/// The first code of each length is the one behind the last of the next shorter
/// length, filled up with zeros; and the shortest codes start at zero.
pub proof fn lemma_first_codes()
    ensures
        first_code(5) == 0,
        first_code(6) == (first_code(5) + code_count(5)) * 2,
        first_code(7) == (first_code(6) + code_count(6)) * 2,
        first_code(8) == (first_code(7) + code_count(7)) * 2,
        first_code(10) == (first_code(8) + code_count(8)) * 4,
        first_code(11) == (first_code(10) + code_count(10)) * 2,
        first_code(12) == (first_code(11) + code_count(11)) * 2,
        first_code(13) == (first_code(12) + code_count(12)) * 2,
        first_code(14) == (first_code(13) + code_count(13)) * 2,
        first_code(15) == (first_code(14) + code_count(14)) * 2,
        first_code(19) == (first_code(15) + code_count(15)) * 16,
        first_code(20) == (first_code(19) + code_count(19)) * 2,
        first_code(21) == (first_code(20) + code_count(20)) * 2,
        first_code(22) == (first_code(21) + code_count(21)) * 2,
        first_code(23) == (first_code(22) + code_count(22)) * 2,
        first_code(24) == (first_code(23) + code_count(23)) * 2,
        first_code(25) == (first_code(24) + code_count(24)) * 2,
        first_code(26) == (first_code(25) + code_count(25)) * 2,
        first_code(27) == (first_code(26) + code_count(26)) * 2,
        first_code(28) == (first_code(27) + code_count(27)) * 2,
        first_code(30) == (first_code(28) + code_count(28)) * 4,
        code_count(5) == 10,
        code_count(6) == 26,
        code_count(7) == 32,
        code_count(8) == 6,
        code_count(10) == 5,
        code_count(11) == 3,
        code_count(12) == 2,
        code_count(13) == 6,
        code_count(14) == 2,
        code_count(15) == 3,
        code_count(19) == 3,
        code_count(20) == 8,
        code_count(21) == 13,
        code_count(22) == 26,
        code_count(23) == 29,
        code_count(24) == 12,
        code_count(25) == 4,
        code_count(26) == 15,
        code_count(27) == 19,
        code_count(28) == 29,
        code_count(30) == 3,
{
}

} // verus!
