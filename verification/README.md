# vn-lunar-core

The Vietnamese lunisolar calendar (Hồ Ngọc Đức's rules at UTC+7) for the years
1900–2100, written in Verus and proved against its contracts.

## Layout

- `src/` — the verified library.
  - `gregorian` — Julian day numbers, Gregorian dates and their validation.
  - `lunisolar` — the table of lunations (`Lunations`), its well-formedness
    check, solar ↔ lunar conversion and leap months, with both round-trip laws.
  - `cycle` — zodiac animals, heavenly stems, earthly branches, can-chi.
  - `lunar_date`, `terms`, `holidays`, `good_days` — lunar dates and their
    names, the solar term in effect on a day, the holidays of a year, the
    hoàng đạo days of a lunar month.
  - `calendar` — `LunarCalendar`, which holds a checked table.
  - `error`, `text`, `arith` — errors and their codes, decimal text, floor division.
- `tests/` — scenarios and exhaustive checks over the supported range.
- `app/` — what stays outside the proofs: the floating-point astronomy (new
  moons, solar longitude, the instants of the solar terms) that builds the
  table of lunations, and the C, JavaScript and Python bindings.

## How the astronomy comes in

The new-moon and solar-longitude series are floating point. They are evaluated
in `app/` and handed to the library as data: for each lunation, the day it
starts and the major solar term in force on that day. `Lunations::new` accepts
the table exactly when it is well formed for the supported range (lunations of
29 or 30 days, every month 11 found, every lunar year of 12 or 13 months, …);
every conversion after that is integer arithmetic on it, proved free of
overflow and proved to match its specification.
