//! The anatomical segments and measured signals of a recording, and the
//! raw column label of each (variable, position) pair.
//!
//! The label function is total over the two enumerations. Two cases of
//! the appliance's naming are special: the `L` segment's course, pitch
//! and roll columns carry the long instrument prefix, and every
//! magnetometer column does so for all segments.

use vstd::prelude::*;

verus! {

/// The sixteen anatomical segments a recording measures.
#[derive(Clone, Copy, Debug, Eq, Hash, PartialEq, Structural)]
pub enum Position {
    L,
    T,
    C,
    ScapularLT,
    ScapularRT,
    SC,
    HipLT,
    HipRT,
    KneeLT,
    KneeRT,
    ShoulderLT,
    ShoulderRT,
    PSISLT,
    PSISRT,
    FootLT,
    FootRT,
}

/// The nine signals measured at each segment.
#[derive(Clone, Copy, Debug, Eq, Hash, PartialEq, Structural)]
pub enum Variable {
    AccelX,
    AccelY,
    AccelZ,
    Course,
    Pitch,
    Roll,
    MagnetX,
    MagnetY,
    MagnetZ,
}

/// The display label of a segment.
pub open spec fn spec_position_str(p: Position) -> Seq<char> {
    match p {
        Position::L => "L"@,
        Position::T => "T"@,
        Position::C => "C"@,
        Position::ScapularLT => "Scapular LT"@,
        Position::ScapularRT => "Scapular RT"@,
        Position::SC => "SC"@,
        Position::HipLT => "HIP LT"@,
        Position::HipRT => "HIP RT"@,
        Position::KneeLT => "Knee LT"@,
        Position::KneeRT => "Knee RT"@,
        Position::ShoulderLT => "Shoulder LT"@,
        Position::ShoulderRT => "Shoulder RT"@,
        Position::PSISLT => "PSIS LT"@,
        Position::PSISRT => "PSIS RT"@,
        Position::FootLT => "Foot LT"@,
        Position::FootRT => "Foot RT"@,
    }
}

/// The first word of a segment label.
pub open spec fn spec_position_first(p: Position) -> Seq<char> {
    match p {
        Position::L => "L"@,
        Position::T => "T"@,
        Position::C => "C"@,
        Position::ScapularLT => "Scapular"@,
        Position::ScapularRT => "Scapular"@,
        Position::SC => "SC"@,
        Position::HipLT => "HIP"@,
        Position::HipRT => "HIP"@,
        Position::KneeLT => "Knee"@,
        Position::KneeRT => "Knee"@,
        Position::ShoulderLT => "Shoulder"@,
        Position::ShoulderRT => "Shoulder"@,
        Position::PSISLT => "PSIS"@,
        Position::PSISRT => "PSIS"@,
        Position::FootLT => "Foot"@,
        Position::FootRT => "Foot"@,
    }
}

/// The side word of a two-word segment label, with its trailing space,
/// or nothing for one-word labels.
pub open spec fn spec_position_side(p: Position) -> Seq<char> {
    match p {
        Position::L => ""@,
        Position::T => ""@,
        Position::C => ""@,
        Position::SC => ""@,
        Position::ScapularLT => "LT "@,
        Position::HipLT => "LT "@,
        Position::KneeLT => "LT "@,
        Position::ShoulderLT => "LT "@,
        Position::PSISLT => "LT "@,
        Position::FootLT => "LT "@,
        Position::ScapularRT => "RT "@,
        Position::HipRT => "RT "@,
        Position::KneeRT => "RT "@,
        Position::ShoulderRT => "RT "@,
        Position::PSISRT => "RT "@,
        Position::FootRT => "RT "@,
    }
}

/// The raw column label of one (variable, position) pair.
pub open spec fn spec_name_string(v: Variable, p: Position) -> Seq<char> {
    let first = spec_position_first(p);
    let side = spec_position_side(p);
    match v {
        Variable::AccelX => first + " Accel Sensor X "@ + side + "(mG)"@,
        Variable::AccelY => first + " Accel Sensor Y "@ + side + "(mG)"@,
        Variable::AccelZ => first + " Accel Sensor Z "@ + side + "(mG)"@,
        Variable::Course => if p == Position::L {
            "Noraxon MyoMotion-Segments-L-Course (deg)"@
        } else {
            first + " course "@ + side + "(deg)"@
        },
        Variable::Pitch => if p == Position::L {
            "Noraxon MyoMotion-Segments-L-Pitch (deg)"@
        } else {
            first + " pitch "@ + side + "(deg)"@
        },
        Variable::Roll => if p == Position::L {
            "Noraxon MyoMotion-Segments-L-Roll (deg)"@
        } else {
            first + " roll "@ + side + "(deg)"@
        },
        Variable::MagnetX => "Noraxon MyoMotion-Segments-"@ + spec_position_str(p)
            + "-Magnetometer-x (mGauss)"@,
        Variable::MagnetY => "Noraxon MyoMotion-Segments-"@ + spec_position_str(p)
            + "-Magnetometer-y (mGauss)"@,
        Variable::MagnetZ => "Noraxon MyoMotion-Segments-"@ + spec_position_str(p)
            + "-Magnetometer-z (mGauss)"@,
    }
}

/// All segments in iteration order, as a value.
pub open spec fn spec_positions() -> Seq<Position> {
    seq![
        Position::L,
        Position::T,
        Position::C,
        Position::ScapularLT,
        Position::ScapularRT,
        Position::SC,
        Position::HipLT,
        Position::HipRT,
        Position::KneeLT,
        Position::KneeRT,
        Position::ShoulderLT,
        Position::ShoulderRT,
        Position::PSISLT,
        Position::PSISRT,
        Position::FootLT,
        Position::FootRT,
    ]
}

/// All signals in iteration order, as a value.
pub open spec fn spec_variables() -> Seq<Variable> {
    seq![
        Variable::AccelX,
        Variable::AccelY,
        Variable::AccelZ,
        Variable::Course,
        Variable::Pitch,
        Variable::Roll,
        Variable::MagnetX,
        Variable::MagnetY,
        Variable::MagnetZ,
    ]
}

impl Position {
    /// All segments, in the fixed iteration order the export schema
    /// uses.
    pub fn iterator() -> (r: Vec<Position>)
        ensures
            r@ == spec_positions(),
            r@ == seq![
                Position::L,
                Position::T,
                Position::C,
                Position::ScapularLT,
                Position::ScapularRT,
                Position::SC,
                Position::HipLT,
                Position::HipRT,
                Position::KneeLT,
                Position::KneeRT,
                Position::ShoulderLT,
                Position::ShoulderRT,
                Position::PSISLT,
                Position::PSISRT,
                Position::FootLT,
                Position::FootRT,
            ],
    {
        let mut v: Vec<Position> = Vec::new();
        v.push(Position::L);
        v.push(Position::T);
        v.push(Position::C);
        v.push(Position::ScapularLT);
        v.push(Position::ScapularRT);
        v.push(Position::SC);
        v.push(Position::HipLT);
        v.push(Position::HipRT);
        v.push(Position::KneeLT);
        v.push(Position::KneeRT);
        v.push(Position::ShoulderLT);
        v.push(Position::ShoulderRT);
        v.push(Position::PSISLT);
        v.push(Position::PSISRT);
        v.push(Position::FootLT);
        v.push(Position::FootRT);
        proof {
            assert(v@ =~= seq![
                Position::L,
                Position::T,
                Position::C,
                Position::ScapularLT,
                Position::ScapularRT,
                Position::SC,
                Position::HipLT,
                Position::HipRT,
                Position::KneeLT,
                Position::KneeRT,
                Position::ShoulderLT,
                Position::ShoulderRT,
                Position::PSISLT,
                Position::PSISRT,
                Position::FootLT,
                Position::FootRT,
            ]);
        }
        v
    }

    /// The display label of a segment.
    pub fn to_str(p: &Position) -> (r: &'static str)
        ensures
            r@ == spec_position_str(*p),
    {
        match p {
            Position::L => "L",
            Position::T => "T",
            Position::C => "C",
            Position::ScapularLT => "Scapular LT",
            Position::ScapularRT => "Scapular RT",
            Position::SC => "SC",
            Position::HipLT => "HIP LT",
            Position::HipRT => "HIP RT",
            Position::KneeLT => "Knee LT",
            Position::KneeRT => "Knee RT",
            Position::ShoulderLT => "Shoulder LT",
            Position::ShoulderRT => "Shoulder RT",
            Position::PSISLT => "PSIS LT",
            Position::PSISRT => "PSIS RT",
            Position::FootLT => "Foot LT",
            Position::FootRT => "Foot RT",
        }
    }

    /// The first word of a segment label.
    fn first_word(p: &Position) -> (r: &'static str)
        ensures
            r@ == spec_position_first(*p),
    {
        match p {
            Position::L => "L",
            Position::T => "T",
            Position::C => "C",
            Position::ScapularLT => "Scapular",
            Position::ScapularRT => "Scapular",
            Position::SC => "SC",
            Position::HipLT => "HIP",
            Position::HipRT => "HIP",
            Position::KneeLT => "Knee",
            Position::KneeRT => "Knee",
            Position::ShoulderLT => "Shoulder",
            Position::ShoulderRT => "Shoulder",
            Position::PSISLT => "PSIS",
            Position::PSISRT => "PSIS",
            Position::FootLT => "Foot",
            Position::FootRT => "Foot",
        }
    }

    /// The side word of a segment label with its trailing space, or the
    /// empty string.
    fn side_word(p: &Position) -> (r: &'static str)
        ensures
            r@ == spec_position_side(*p),
    {
        match p {
            Position::L => "",
            Position::T => "",
            Position::C => "",
            Position::SC => "",
            Position::ScapularLT => "LT ",
            Position::HipLT => "LT ",
            Position::KneeLT => "LT ",
            Position::ShoulderLT => "LT ",
            Position::PSISLT => "LT ",
            Position::FootLT => "LT ",
            Position::ScapularRT => "RT ",
            Position::HipRT => "RT ",
            Position::KneeRT => "RT ",
            Position::ShoulderRT => "RT ",
            Position::PSISRT => "RT ",
            Position::FootRT => "RT ",
        }
    }
}

impl Variable {
    /// All signals, in the fixed iteration order the export schema
    /// uses.
    pub fn iterator() -> (r: Vec<Variable>)
        ensures
            r@ == spec_variables(),
            r@ == seq![
                Variable::AccelX,
                Variable::AccelY,
                Variable::AccelZ,
                Variable::Course,
                Variable::Pitch,
                Variable::Roll,
                Variable::MagnetX,
                Variable::MagnetY,
                Variable::MagnetZ,
            ],
    {
        let mut v: Vec<Variable> = Vec::new();
        v.push(Variable::AccelX);
        v.push(Variable::AccelY);
        v.push(Variable::AccelZ);
        v.push(Variable::Course);
        v.push(Variable::Pitch);
        v.push(Variable::Roll);
        v.push(Variable::MagnetX);
        v.push(Variable::MagnetY);
        v.push(Variable::MagnetZ);
        proof {
            assert(v@ =~= seq![
                Variable::AccelX,
                Variable::AccelY,
                Variable::AccelZ,
                Variable::Course,
                Variable::Pitch,
                Variable::Roll,
                Variable::MagnetX,
                Variable::MagnetY,
                Variable::MagnetZ,
            ]);
        }
        v
    }

    /// The raw column label of one (variable, position) pair, per
    /// [`spec_name_string`].
    pub fn to_name_string(v: &Variable, p: &Position) -> (r: String)
        ensures
            r@ == spec_name_string(*v, *p),
    {
        let first = Position::first_word(p);
        let side = Position::side_word(p);
        let is_l = *p == Position::L;
        let mut out = String::new();
        match v {
            Variable::AccelX => {
                out.append(first);
                out.append(" Accel Sensor X ");
                out.append(side);
                out.append("(mG)");
            },
            Variable::AccelY => {
                out.append(first);
                out.append(" Accel Sensor Y ");
                out.append(side);
                out.append("(mG)");
            },
            Variable::AccelZ => {
                out.append(first);
                out.append(" Accel Sensor Z ");
                out.append(side);
                out.append("(mG)");
            },
            Variable::Course => {
                if is_l {
                    out.append("Noraxon MyoMotion-Segments-L-Course (deg)");
                } else {
                    out.append(first);
                    out.append(" course ");
                    out.append(side);
                    out.append("(deg)");
                }
            },
            Variable::Pitch => {
                if is_l {
                    out.append("Noraxon MyoMotion-Segments-L-Pitch (deg)");
                } else {
                    out.append(first);
                    out.append(" pitch ");
                    out.append(side);
                    out.append("(deg)");
                }
            },
            Variable::Roll => {
                if is_l {
                    out.append("Noraxon MyoMotion-Segments-L-Roll (deg)");
                } else {
                    out.append(first);
                    out.append(" roll ");
                    out.append(side);
                    out.append("(deg)");
                }
            },
            Variable::MagnetX => {
                out.append("Noraxon MyoMotion-Segments-");
                out.append(Position::to_str(p));
                out.append("-Magnetometer-x (mGauss)");
            },
            Variable::MagnetY => {
                out.append("Noraxon MyoMotion-Segments-");
                out.append(Position::to_str(p));
                out.append("-Magnetometer-y (mGauss)");
            },
            Variable::MagnetZ => {
                out.append("Noraxon MyoMotion-Segments-");
                out.append(Position::to_str(p));
                out.append("-Magnetometer-z (mGauss)");
            },
        }
        proof {
            assert(out@ =~= spec_name_string(*v, *p));
        }
        out
    }
}

} // verus!
