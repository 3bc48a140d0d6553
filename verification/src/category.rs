//! Song categories and their Russian display names.

use vstd::prelude::*;

verus! {

/// Song category enum matching database type
#[derive(Debug, Clone, Copy, PartialEq, Eq, Hash, Structural)]
pub enum SongCategory {
    Praise,
    Worship,
    Christmas,
    Easter,
    Wedding,
    Funeral,
    Youth,
    Children,
    Communion,
    Baptism,
    Prayer,
    Thanksgiving,
    Evangelism,
    Repentance,
    Faith,
    Hope,
    Love,
    SecondComing,
    Heaven,
    Trinity,
    HolySpirit,
    Salvation,
}

/// The fixed order in which the categories are listed.
pub open spec fn all_categories() -> Seq<SongCategory> {
    seq![
        SongCategory::Praise,
        SongCategory::Worship,
        SongCategory::Christmas,
        SongCategory::Easter,
        SongCategory::Wedding,
        SongCategory::Funeral,
        SongCategory::Youth,
        SongCategory::Children,
        SongCategory::Communion,
        SongCategory::Baptism,
        SongCategory::Prayer,
        SongCategory::Thanksgiving,
        SongCategory::Evangelism,
        SongCategory::Repentance,
        SongCategory::Faith,
        SongCategory::Hope,
        SongCategory::Love,
        SongCategory::SecondComing,
        SongCategory::Heaven,
        SongCategory::Trinity,
        SongCategory::HolySpirit,
        SongCategory::Salvation,
    ]
}

/// The Russian display name of each category.
pub open spec fn category_name_ru(c: SongCategory) -> Seq<char> {
    match c {
        SongCategory::Praise => seq!['П', 'р', 'о', 'с', 'л', 'а', 'в', 'л', 'е', 'н', 'и', 'е'],
        SongCategory::Worship => seq!['П', 'о', 'к', 'л', 'о', 'н', 'е', 'н', 'и', 'е'],
        SongCategory::Christmas => seq![
            'Р', 'о', 'ж', 'д', 'е', 'с', 'т', 'в', 'е', 'н', 'с', 'к', 'и', 'е',
        ],
        SongCategory::Easter => seq!['П', 'а', 'с', 'х', 'а', 'л', 'ь', 'н', 'ы', 'е'],
        SongCategory::Wedding => seq!['С', 'в', 'а', 'д', 'е', 'б', 'н', 'ы', 'е'],
        SongCategory::Funeral => seq!['П', 'о', 'х', 'о', 'р', 'о', 'н', 'н', 'ы', 'е'],
        SongCategory::Youth => seq!['М', 'о', 'л', 'о', 'д', 'ё', 'ж', 'н', 'ы', 'е'],
        SongCategory::Children => seq!['Д', 'е', 'т', 'с', 'к', 'и', 'е'],
        SongCategory::Communion => seq![
            'В', 'е', 'ч', 'е', 'р', 'я', ' ', 'Г', 'о', 'с', 'п', 'о', 'д', 'н', 'я',
        ],
        SongCategory::Baptism => seq!['К', 'р', 'е', 'щ', 'е', 'н', 'и', 'е'],
        SongCategory::Prayer => seq!['М', 'о', 'л', 'и', 'т', 'в', 'е', 'н', 'н', 'ы', 'е'],
        SongCategory::Thanksgiving => seq![
            'Б', 'л', 'а', 'г', 'о', 'д', 'а', 'р', 'с', 'т', 'в', 'е', 'н', 'н', 'ы', 'е',
        ],
        SongCategory::Evangelism => seq![
            'Е', 'в', 'а', 'н', 'г', 'е', 'л', 'и', 'з', 'а', 'ц', 'и', 'о', 'н', 'н', 'ы', 'е',
        ],
        SongCategory::Repentance => seq!['П', 'о', 'к', 'а', 'я', 'н', 'и', 'е'],
        SongCategory::Faith => seq!['В', 'е', 'р', 'а'],
        SongCategory::Hope => seq!['Н', 'а', 'д', 'е', 'ж', 'д', 'а'],
        SongCategory::Love => seq!['Л', 'ю', 'б', 'о', 'в', 'ь'],
        SongCategory::SecondComing => seq![
            'В', 'т', 'о', 'р', 'о', 'е', ' ', 'п', 'р', 'и', 'ш', 'е', 'с', 'т', 'в', 'и', 'е',
        ],
        SongCategory::Heaven => seq!['Н', 'е', 'б', 'е', 'с', 'а'],
        SongCategory::Trinity => seq!['Т', 'р', 'о', 'и', 'ц', 'а'],
        SongCategory::HolySpirit => seq!['С', 'в', 'я', 'т', 'о', 'й', ' ', 'Д', 'у', 'х'],
        SongCategory::Salvation => seq!['С', 'п', 'а', 'с', 'е', 'н', 'и', 'е'],
    }
}

impl SongCategory {
    /// Get Russian display name
    pub fn name_ru(&self) -> (r: &'static str)
        ensures
            r@ == category_name_ru(*self),
    {
        proof {
            reveal_strlit("Прославление");
            reveal_strlit("Поклонение");
            reveal_strlit("Рождественские");
            reveal_strlit("Пасхальные");
            reveal_strlit("Свадебные");
            reveal_strlit("Похоронные");
            reveal_strlit("Молодёжные");
            reveal_strlit("Детские");
            reveal_strlit("Вечеря Господня");
            reveal_strlit("Крещение");
            reveal_strlit("Молитвенные");
            reveal_strlit("Благодарственные");
            reveal_strlit("Евангелизационные");
            reveal_strlit("Покаяние");
            reveal_strlit("Вера");
            reveal_strlit("Надежда");
            reveal_strlit("Любовь");
            reveal_strlit("Второе пришествие");
            reveal_strlit("Небеса");
            reveal_strlit("Троица");
            reveal_strlit("Святой Дух");
            reveal_strlit("Спасение");
        }
        let r = match self {
            Self::Praise => "Прославление",
            Self::Worship => "Поклонение",
            Self::Christmas => "Рождественские",
            Self::Easter => "Пасхальные",
            Self::Wedding => "Свадебные",
            Self::Funeral => "Похоронные",
            Self::Youth => "Молодёжные",
            Self::Children => "Детские",
            Self::Communion => "Вечеря Господня",
            Self::Baptism => "Крещение",
            Self::Prayer => "Молитвенные",
            Self::Thanksgiving => "Благодарственные",
            Self::Evangelism => "Евангелизационные",
            Self::Repentance => "Покаяние",
            Self::Faith => "Вера",
            Self::Hope => "Надежда",
            Self::Love => "Любовь",
            Self::SecondComing => "Второе пришествие",
            Self::Heaven => "Небеса",
            Self::Trinity => "Троица",
            Self::HolySpirit => "Святой Дух",
            Self::Salvation => "Спасение",
        };
        proof {
            assert(r@ =~= category_name_ru(*self));
        }
        r
    }

    /// Get all categories
    pub fn all() -> (r: Vec<SongCategory>)
        ensures
            r@ == all_categories(),
    {
        let mut v: Vec<SongCategory> = Vec::new();
        v.push(SongCategory::Praise);
        v.push(SongCategory::Worship);
        v.push(SongCategory::Christmas);
        v.push(SongCategory::Easter);
        v.push(SongCategory::Wedding);
        v.push(SongCategory::Funeral);
        v.push(SongCategory::Youth);
        v.push(SongCategory::Children);
        v.push(SongCategory::Communion);
        v.push(SongCategory::Baptism);
        v.push(SongCategory::Prayer);
        v.push(SongCategory::Thanksgiving);
        v.push(SongCategory::Evangelism);
        v.push(SongCategory::Repentance);
        v.push(SongCategory::Faith);
        v.push(SongCategory::Hope);
        v.push(SongCategory::Love);
        v.push(SongCategory::SecondComing);
        v.push(SongCategory::Heaven);
        v.push(SongCategory::Trinity);
        v.push(SongCategory::HolySpirit);
        v.push(SongCategory::Salvation);
        proof {
            assert(v@ =~= all_categories());
        }
        v
    }
}

} // verus!
